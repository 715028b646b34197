//! Derived views of a topology: link servers and peers, host addresses,
//! endpoints, DNS zones and the CNAME intents of sites.
use crate::dns::{best_zone, best_zone_exec, lemma_best_zone, host_in_zone_exec, in_zone, zones_in_use, zones_in_use_exec};
use crate::maps::{
    binding_map_get, endpoint_entries, endpoint_map_get, endpoint_map_get_index, endpoint_map_len,
    host_entries, host_map_get, host_map_get_index, host_map_len, http_site_entries,
    http_site_map_get, http_site_map_get_index, http_site_map_len, inserted, link_entries,
    link_map_get, lookup, string_entries, string_map_insert, string_map_new, vpn_profile_entries,
    vpn_profile_map_get,
};
use crate::net::{address_prefix_len, address_prefix_len_spec, cidr_parse, parse_cidr};
use crate::seqs::{
    flat_map, lemma_flat_map_all, lemma_flat_map_origin, lemma_flat_map_piece, lemma_flat_map_step,
    opt_seq,
};
use crate::strs::{copy, dec, s3};
use crate::text::{decimal, ends_with, str_eq};
use crate::topology::{
    DnsPublication, DynamicHost, Endpoint, EndpointBind, Host, HttpAccess, HttpSite, Link,
    LinkBinding, LinkRole, PagesSite, Topology, VpnProfile,
};
use indexmap::IndexMap;
use crate::validate::links::{binding_of, is_server_on, server_count};
use vstd::prelude::*;

verus! {

/// Where to look for a host's address.
#[derive(Debug, Clone, PartialEq, Eq)]
pub enum AddressKind {
    Lan,
    DirectLink,
    Link(String),
}

/// An address record (A or AAAA) that a dynamic host owns.
#[derive(Debug, Clone, PartialEq, Eq)]
pub struct AddressExclude {
    pub name: String,
    pub record_type: &'static str,
}

/// A CNAME record a site asks for.
#[derive(Debug, Clone, PartialEq, Eq)]
pub struct CnameIntent {
    pub name: String,
    pub hostname: String,
    pub zone: String,
    pub relative_name: String,
    pub target: String,
    pub proxied: bool,
    pub comment: Option<String>,
    pub source: &'static str,
}

/// A peer of a link's server.
#[derive(Debug, Clone)]
pub struct PeerEntry<'a> {
    pub hostname: &'a str,
    pub public_key: &'a str,
    pub allowed_ips: Vec<String>,
    pub address: String,
}

/// What a peer entry says, as text.
pub struct PeerView {
    pub hostname: Seq<char>,
    pub public_key: Seq<char>,
    pub allowed_ips: Seq<Seq<char>>,
    pub address: Seq<char>,
}

impl<'a> View for PeerEntry<'a> {
    type V = PeerView;

    open spec fn view(&self) -> PeerView {
        PeerView {
            hostname: self.hostname@,
            public_key: self.public_key@,
            allowed_ips: self.allowed_ips@.map_values(|s: String| s@),
            address: self.address@,
        }
    }
}

/// The position of the first host that serves the link.
pub open spec fn first_server(hosts: Seq<(Seq<char>, Host)>, ln: Seq<char>) -> Option<int>
    decreases hosts.len(),
{
    if hosts.len() == 0 {
        None
    } else {
        match first_server(hosts.drop_last(), ln) {
            Some(i) => Some(i),
            None => if is_server_on(hosts.last().1, ln) {
                Some(hosts.len() - 1)
            } else {
                None
            },
        }
    }
}

pub proof fn lemma_first_server(hosts: Seq<(Seq<char>, Host)>, ln: Seq<char>)
    ensures
        match first_server(hosts, ln) {
            Some(i) => 0 <= i < hosts.len() && is_server_on(hosts[i].1, ln),
            None => server_count(hosts, ln) == 0,
        },
    decreases hosts.len(),
{
    if hosts.len() > 0 {
        lemma_first_server(hosts.drop_last(), ln);
    }
}

/// The position of the host serving a declared link, when exactly one does.
pub open spec fn server_index(t: Topology, ln: Seq<char>) -> Option<int> {
    let hosts = host_entries(t.hosts);
    if lookup(link_entries(t.links), ln) is Some && server_count(hosts, ln) == 1 {
        first_server(hosts, ln)
    } else {
        None
    }
}

/// The server binding of a link.
pub open spec fn server_binding(t: Topology, ln: Seq<char>) -> Option<LinkBinding> {
    match server_index(t, ln) {
        Some(i) => binding_of(host_entries(t.hosts)[i].1, ln),
        None => None,
    }
}

/// The name of the host serving a link.
pub open spec fn server_name(t: Topology, ln: Seq<char>) -> Option<Seq<char>> {
    match server_index(t, ln) {
        Some(i) => Some(host_entries(t.hosts)[i].0),
        None => None,
    }
}

/// A link has a server exactly when it is declared and exactly one host
/// serves it; that server's binding has the server role.
pub proof fn lemma_link_server_unique(t: Topology, ln: Seq<char>)
    ensures
        server_binding(t, ln) is Some <==> (lookup(link_entries(t.links), ln) is Some
            && server_count(host_entries(t.hosts), ln) == 1),
        server_binding(t, ln) matches Some(b) ==> b.role == LinkRole::Server,
        server_name(t, ln) is Some <==> server_binding(t, ln) is Some,
{
    lemma_first_server(host_entries(t.hosts), ln);
}

/// The client bindings of a link, with their host names, in host order.
pub open spec fn client_fn(ln: Seq<char>) -> spec_fn(int, (Seq<char>, Host)) -> Seq<
    (Seq<char>, LinkBinding),
> {
    |i: int, e: (Seq<char>, Host)|
        match binding_of(e.1, ln) {
            Some(b) => if b.role == LinkRole::Client {
                seq![(e.0, b)]
            } else {
                Seq::empty()
            },
            None => Seq::empty(),
        }
}

pub open spec fn key_text(k: Option<String>) -> Seq<char> {
    match k {
        Some(s) => s@,
        None => Seq::empty(),
    }
}

/// The peer entry of a host on a link other than the server: its binding's
/// key (empty when none), its address and that address as a single-host
/// allowed IP; hosts whose address does not parse are left out.
pub open spec fn peer_fn(server: Option<Seq<char>>, ln: Seq<char>) -> spec_fn(
    int,
    (Seq<char>, Host),
) -> Seq<PeerView> {
    |i: int, e: (Seq<char>, Host)|
        if server == Some(e.0) {
            Seq::empty()
        } else {
            match binding_of(e.1, ln) {
                Some(b) => match address_prefix_len_spec(b.address@) {
                    Some(p) => seq![
                        PeerView {
                            hostname: e.0,
                            public_key: key_text(b.public_key),
                            allowed_ips: seq![b.address@ + "/"@ + decimal(p as nat)],
                            address: b.address@,
                        },
                    ],
                    None => Seq::empty(),
                },
                None => Seq::empty(),
            }
        }
}

/// The address a host has of one kind: its LAN address; its direct-link
/// address, else its address on the `direct-link` link; or its address on
/// a named link.
pub open spec fn kind_address(h: Host, k: AddressKind) -> Option<Seq<char>> {
    match k {
        AddressKind::Lan => match h.network.lan_ip {
            Some(a) => Some(a@),
            None => None,
        },
        AddressKind::DirectLink => match h.network.direct_link_ip {
            Some(a) => Some(a@),
            None => match binding_of(h, "direct-link"@) {
                Some(b) => Some(b.address@),
                None => None,
            },
        },
        AddressKind::Link(n) => match binding_of(h, n@) {
            Some(b) => Some(b.address@),
            None => None,
        },
    }
}

/// The first address the policy finds, trying its kinds in order.
pub open spec fn first_address(h: Host, policy: Seq<AddressKind>) -> Option<Seq<char>>
    decreases policy.len(),
{
    if policy.len() == 0 {
        None
    } else {
        match kind_address(h, policy[0]) {
            Some(a) => Some(a),
            None => first_address(h, policy.drop_first()),
        }
    }
}

pub open spec fn resolve_address(t: Topology, host_name: Seq<char>, policy: Seq<AddressKind>) -> Option<
    Seq<char>,
> {
    match lookup(host_entries(t.hosts), host_name) {
        Some(h) => first_address(h, policy),
        None => None,
    }
}

/// The SSH address of a host: LAN, else its `wg-home` address, else its
/// direct-link address.
pub open spec fn ssh_address(t: Topology, host_name: Seq<char>) -> Option<Seq<char>> {
    match lookup(host_entries(t.hosts), host_name) {
        Some(h) => match kind_address(h, AddressKind::Lan) {
            Some(a) => Some(a),
            None => match binding_of(h, "wg-home"@) {
                Some(b) => Some(b.address@),
                None => kind_address(h, AddressKind::DirectLink),
            },
        },
        None => None,
    }
}

pub open spec fn endpoint_target_fn(host_name: Seq<char>) -> spec_fn(int, (Seq<char>, Endpoint)) -> Seq<
    (Seq<char>, Endpoint),
> {
    |i: int, e: (Seq<char>, Endpoint)|
        if e.1.target_host@ == host_name {
            seq![e]
        } else {
            Seq::empty()
        }
}

/// The endpoint an ingress host dials: a loopback endpoint on another host
/// is reached through its `remoteVia` endpoint.
pub open spec fn ingress_endpoint(t: Topology, name: Seq<char>, ingress_host: Seq<char>) -> Option<
    (Seq<char>, Endpoint),
> {
    match lookup(endpoint_entries(t.services.endpoints), name) {
        Some(e) => if e.bind == EndpointBind::Loopback && e.target_host@ != ingress_host {
            match e.remote_via {
                Some(r) => match lookup(endpoint_entries(t.services.endpoints), r@) {
                    Some(re) => Some((r@, re)),
                    None => None,
                },
                None => None,
            }
        } else {
            Some((name, e))
        },
        None => None,
    }
}

/// Which endpoint an ingress host dials: an endpoint bound to the LAN or
/// the VPN, or one on the ingress host itself, is dialled as it is; only a
/// loopback endpoint on another host goes through its `remoteVia` endpoint,
/// and without one it cannot be reached; an unknown name resolves to
/// nothing.
pub proof fn lemma_ingress_endpoint_resolution(t: Topology, name: Seq<char>, ingress_host: Seq<char>)
    ensures
        lookup(endpoint_entries(t.services.endpoints), name) is None ==> ingress_endpoint(
            t,
            name,
            ingress_host,
        ) is None,
        lookup(endpoint_entries(t.services.endpoints), name) matches Some(e) ==> (e.bind
            != EndpointBind::Loopback || e.target_host@ == ingress_host ==> ingress_endpoint(
            t,
            name,
            ingress_host,
        ) == Some((name, e))),
        lookup(endpoint_entries(t.services.endpoints), name) matches Some(e) ==> (e.bind
            == EndpointBind::Loopback && e.target_host@ != ingress_host ==> match e.remote_via {
            Some(r) => ingress_endpoint(t, name, ingress_host) == match lookup(
                endpoint_entries(t.services.endpoints),
                r@,
            ) {
                Some(re) => Some((r@, re)),
                None => None,
            },
            None => ingress_endpoint(t, name, ingress_host) is None,
        }),
{
}

/// What an address exclude says, as text.
pub open spec fn exclude_view(e: AddressExclude) -> (Seq<char>, Seq<char>) {
    (e.name@, e.record_type@)
}

/// What a CNAME intent says, as text.
pub struct CnameView {
    pub name: Seq<char>,
    pub hostname: Seq<char>,
    pub zone: Seq<char>,
    pub relative_name: Seq<char>,
    pub target: Seq<char>,
    pub proxied: bool,
    pub comment: Option<Seq<char>>,
    pub source: Seq<char>,
}

impl View for CnameIntent {
    type V = CnameView;

    open spec fn view(&self) -> CnameView {
        CnameView {
            name: self.name@,
            hostname: self.hostname@,
            zone: self.zone@,
            relative_name: self.relative_name@,
            target: self.target@,
            proxied: self.proxied,
            comment: match self.comment {
                Some(c) => Some(c@),
                None => None,
            },
            source: self.source@,
        }
    }
}

/// The zone an FQDN is managed in: of the zones in use that contain it,
/// the one with the most labels (the later one on ties).
pub open spec fn zone_of(t: Topology, fqdn: Seq<char>) -> Option<Seq<char>> {
    let zones = zones_in_use(t.domains);
    match best_zone(zones, fqdn) {
        Some(i) => Some(zones[i]),
        None => None,
    }
}

/// The owner name of an FQDN relative to a zone: `@` for the apex, the
/// labels before `.zone` below it, nothing outside it.
pub open spec fn relative(fqdn: Seq<char>, zone: Seq<char>) -> Option<Seq<char>> {
    if fqdn == zone {
        Some("@"@)
    } else if ends_with(fqdn, seq!['.'] + zone) {
        Some(fqdn.take(fqdn.len() - zone.len() - 1))
    } else {
        None
    }
}

pub open spec fn relative_or_self(fqdn: Seq<char>, zone: Seq<char>) -> Seq<char> {
    match relative(fqdn, zone) {
        Some(r) => r,
        None => fqdn,
    }
}

pub open spec fn zone_hosts_fn(t: Topology, zone: Seq<char>) -> spec_fn(int, DynamicHost) -> Seq<
    DynamicHost,
> {
    |i: int, d: DynamicHost|
        if zone_of(t, d.fqdn@) == Some(zone) {
            seq![d]
        } else {
            Seq::empty()
        }
}

/// The dynamic hosts whose zone is `zone`, in declaration order.
pub open spec fn zone_hosts(t: Topology, zone: Seq<char>) -> Seq<DynamicHost> {
    flat_map(t.domains.dynamic_hosts@, zone_hosts_fn(t, zone))
}

pub open spec fn exclude_fn(zone: Seq<char>) -> spec_fn(int, DynamicHost) -> Seq<(Seq<char>, Seq<char>)> {
    |i: int, d: DynamicHost|
        seq![
            (relative_or_self(d.fqdn@, zone), "A"@),
            (relative_or_self(d.fqdn@, zone), "AAAA"@),
        ]
}

/// The map from site names to hostnames that inserting the sites in order
/// builds.
pub open spec fn site_host_map(sites: Seq<(Seq<char>, HttpSite)>) -> Seq<(Seq<char>, Seq<char>)>
    decreases sites.len(),
{
    if sites.len() == 0 {
        Seq::empty()
    } else {
        inserted(site_host_map(sites.drop_last()), sites.last().0, sites.last().1.hostname@)
    }
}

/// The CNAME a managed, non-VPN site asks for, in the zone it belongs to.
pub open spec fn service_cname_fn(t: Topology) -> spec_fn(int, (Seq<char>, HttpSite)) -> Seq<CnameView> {
    |i: int, e: (Seq<char>, HttpSite)|
        if e.1.dns_publication != DnsPublication::Managed || e.1.access == HttpAccess::Vpn {
            Seq::empty()
        } else {
            match zone_of(t, e.1.hostname@) {
                Some(z) => seq![
                    CnameView {
                        name: e.0,
                        hostname: e.1.hostname@,
                        zone: z,
                        relative_name: relative_or_self(e.1.hostname@, z),
                        target: z,
                        proxied: e.1.access == HttpAccess::Cloudflare,
                        comment: None,
                        source: "service"@,
                    },
                ],
                None => Seq::empty(),
            }
        }
}

/// Every service CNAME intent comes from a site of that name and hostname
/// whose DNS is managed and whose access is not the VPN; it points at the
/// zone it lies in, and it is proxied exactly when the site is reached
/// through Cloudflare (a direct site's record is never proxied).
pub proof fn lemma_service_intents_follow_sites(t: Topology, k: int)
    requires
        0 <= k < flat_map(http_site_entries(t.services.http_sites), service_cname_fn(t)).len(),
    ensures
        exists|i: int|
            #![trigger http_site_entries(t.services.http_sites)[i]]
            0 <= i < http_site_entries(t.services.http_sites).len() && {
                let site = http_site_entries(t.services.http_sites)[i];
                let c = flat_map(http_site_entries(t.services.http_sites), service_cname_fn(t))[k];
                &&& c.name == site.0
                &&& c.hostname == site.1.hostname@
                &&& site.1.dns_publication == DnsPublication::Managed
                &&& site.1.access != HttpAccess::Vpn
                &&& zone_of(t, site.1.hostname@) == Some(c.zone)
                &&& c.target == c.zone
                &&& (c.proxied <==> site.1.access == HttpAccess::Cloudflare)
            },
{
    let sites = http_site_entries(t.services.http_sites);
    let f = service_cname_fn(t);
    let r = lemma_flat_map_origin(sites, f, k);
    let i = r.0;
    assert(f(i, sites[i]).len() > 0);
    assert(r.1 == 0);
}

/// Every site whose DNS is managed, whose access is not the VPN and whose
/// hostname lies in a zone in use gets its CNAME intent in that zone,
/// proxied exactly when the site is reached through Cloudflare.
pub proof fn lemma_managed_sites_get_intents(t: Topology, i: int)
    requires
        0 <= i < http_site_entries(t.services.http_sites).len(),
        http_site_entries(t.services.http_sites)[i].1.dns_publication == DnsPublication::Managed,
        http_site_entries(t.services.http_sites)[i].1.access != HttpAccess::Vpn,
        zone_of(t, http_site_entries(t.services.http_sites)[i].1.hostname@) is Some,
    ensures
        exists|k: int|
            #![trigger flat_map(http_site_entries(t.services.http_sites), service_cname_fn(t))[k]]
            0 <= k < flat_map(http_site_entries(t.services.http_sites), service_cname_fn(t)).len()
                && {
                let site = http_site_entries(t.services.http_sites)[i];
                let c = flat_map(http_site_entries(t.services.http_sites), service_cname_fn(t))[k];
                &&& c.name == site.0
                &&& c.hostname == site.1.hostname@
                &&& zone_of(t, site.1.hostname@) == Some(c.zone)
                &&& (c.proxied <==> site.1.access == HttpAccess::Cloudflare)
            },
{
    let sites = http_site_entries(t.services.http_sites);
    let f = service_cname_fn(t);
    let k = lemma_flat_map_piece(sites, f, i);
    assert(f(i, sites[i]).len() == 1);
    assert(flat_map(sites, f)[k] == flat_map(sites, f).subrange(k, k + 1)[0]);
}

/// The CNAME a Pages site asks for: `subdomain.base` in the zone it
/// belongs to, pointing at the site's target.
pub open spec fn pages_cname_fn(t: Topology, base: Seq<char>) -> spec_fn(int, PagesSite) -> Seq<CnameView> {
    |i: int, p: PagesSite|
        match zone_of(t, p.subdomain@ + "."@ + base) {
            Some(z) => seq![
                CnameView {
                    name: p.subdomain@,
                    hostname: p.subdomain@ + "."@ + base,
                    zone: z,
                    relative_name: p.subdomain@,
                    target: p.cname_target@,
                    proxied: false,
                    comment: None,
                    source: "pages"@,
                },
            ],
            None => Seq::empty(),
        }
}

/// The zone Pages hostnames are formed under: the one given, else the
/// first declared zone.
pub open spec fn pages_base(t: Topology, base_zone: Option<Seq<char>>) -> Option<Seq<char>> {
    match base_zone {
        Some(z) => Some(z),
        None => if t.domains.zones@.len() > 0 {
            Some(t.domains.zones@[0]@)
        } else {
            None
        },
    }
}

/// A name is relative to a zone exactly when it lies in it, and putting the
/// zone back gives the name.
pub proof fn lemma_relative_name_round_trip(fqdn: Seq<char>, zone: Seq<char>)
    ensures
        relative(fqdn, zone) is Some <==> in_zone(fqdn, zone),
        fqdn != zone ==> (relative(fqdn, zone) matches Some(r) ==> r + seq!['.'] + zone == fqdn),
{
    if fqdn != zone && ends_with(fqdn, seq!['.'] + zone) {
        let k = fqdn.len() - zone.len() - 1;
        let r = fqdn.take(k);
        assert(fqdn.subrange(k, fqdn.len() as int) == seq!['.'] + zone);
        assert(fqdn =~= fqdn.take(k) + fqdn.subrange(k, fqdn.len() as int));
        assert(r + seq!['.'] + zone =~= fqdn);
    }
}

/// The zone found for an FQDN is a zone in use that contains it, with at
/// least as many labels as any other zone in use that contains it (the
/// longest matching suffix); there is none only when no zone in use
/// contains it.
pub proof fn lemma_zone_for_host_longest(t: Topology, fqdn: Seq<char>)
    ensures
        zone_of(t, fqdn) matches Some(z) ==> zones_in_use(t.domains).contains(z) && in_zone(fqdn, z)
            && forall|i: int|
            0 <= i < zones_in_use(t.domains).len() && in_zone(
                fqdn,
                #[trigger] zones_in_use(t.domains)[i],
            ) ==> crate::dns::label_count(zones_in_use(t.domains)[i]) <= crate::dns::label_count(z),
        zone_of(t, fqdn) is None ==> forall|i: int|
            0 <= i < zones_in_use(t.domains).len() ==> !in_zone(
                fqdn,
                #[trigger] zones_in_use(t.domains)[i],
            ),
{
    let zones = zones_in_use(t.domains);
    lemma_best_zone(zones, fqdn);
    crate::dns::lemma_best_zone_longest(zones, fqdn);
    if let Some(k) = best_zone(zones, fqdn) {
        assert(zones[k] == zones[k]);
    }
}

/// A host's zone always yields a relative name for it: the name of every
/// CNAME intent is relative to the zone it is placed in.
pub proof fn lemma_zone_names_are_relative(t: Topology, fqdn: Seq<char>)
    ensures
        zone_of(t, fqdn) matches Some(z) ==> relative(fqdn, z) is Some,
{
    lemma_zone_for_host_longest(t, fqdn);
    if let Some(z) = zone_of(t, fqdn) {
        lemma_relative_name_round_trip(fqdn, z);
    }
}

impl Topology {
    /// Get a link by name.
    pub fn link(&self, name: &str) -> (r: Option<&Link>)
        ensures
            match r {
                Some(l) => lookup(link_entries(self.links), name@) == Some(*l),
                None => lookup(link_entries(self.links), name@) is None,
            },
    {
        link_map_get(&self.links, name)
    }

    /// The CIDR of a link (its subnet).
    pub fn link_cidr(&self, name: &str) -> (r: Option<&str>)
        ensures
            match r {
                Some(c) => lookup(link_entries(self.links), name@) matches Some(l) && c@ == l.subnet@,
                None => lookup(link_entries(self.links), name@) is None,
            },
    {
        match link_map_get(&self.links, name) {
            Some(l) => Some(l.subnet.as_str()),
            None => None,
        }
    }

    /// The position of the only host serving a declared link.
    fn server_position(&self, name: &str) -> (r: Option<usize>)
        ensures
            match r {
                Some(i) => server_index(*self, name@) == Some(i as int) && i < host_entries(
                    self.hosts,
                ).len(),
                None => server_index(*self, name@) is None,
            },
    {
        let ghost hosts = host_entries(self.hosts);
        proof {
            lemma_first_server(hosts, name@);
        }
        if link_map_get(&self.links, name).is_none() {
            return None;
        }
        let len = host_map_len(&self.hosts);
        let mut first: Option<usize> = None;
        let mut count: usize = 0;
        let mut i: usize = 0;
        while i < len
            invariant
                hosts == host_entries(self.hosts),
                len == hosts.len(),
                0 <= i <= len,
                count <= i,
                count == server_count(hosts.take(i as int), name@),
                match first {
                    Some(k) => first_server(hosts.take(i as int), name@) == Some(k as int),
                    None => first_server(hosts.take(i as int), name@) is None,
                },
            decreases len - i,
        {
            assert(hosts.take(i + 1).drop_last() =~= hosts.take(i as int));
            match host_map_get_index(&self.hosts, i) {
                Some((_, h)) => {
                    if let Some(b) = binding_map_get(&h.links, name) {
                        if b.role == LinkRole::Server {
                            count += 1;
                            if first.is_none() {
                                first = Some(i);
                            }
                        }
                    }
                },
                None => {},
            }
            i += 1;
        }
        assert(hosts.take(len as int) =~= hosts);
        if count == 1 {
            first
        } else {
            None
        }
    }

    /// The server binding for a link (the binding with role == Server).
    ///
    /// A link must have exactly one server for this accessor to return a
    /// value. Returning `None` for an ambiguous link prevents callers from
    /// silently selecting whichever host happens to appear first in the
    /// topology map.
    pub fn link_server(&self, name: &str) -> (r: Option<&LinkBinding>)
        ensures
            match r {
                Some(b) => server_binding(*self, name@) == Some(*b),
                None => server_binding(*self, name@) is None,
            },
    {
        proof {
            lemma_first_server(host_entries(self.hosts), name@);
        }
        match self.server_position(name) {
            Some(i) => match host_map_get_index(&self.hosts, i) {
                Some((_, h)) => binding_map_get(&h.links, name),
                None => None,
            },
            None => None,
        }
    }

    /// The server hostname for a link.
    pub fn link_server_host(&self, name: &str) -> (r: Option<&str>)
        ensures
            match r {
                Some(h) => server_name(*self, name@) == Some(h@),
                None => server_name(*self, name@) is None,
            },
    {
        match self.server_position(name) {
            Some(i) => match host_map_get_index(&self.hosts, i) {
                Some((hn, _)) => Some(hn.as_str()),
                None => None,
            },
            None => None,
        }
    }

    /// The server address for a link (e.g., "198.51.100.1").
    pub fn link_server_address(&self, name: &str) -> (r: Option<&str>)
        ensures
            match r {
                Some(a) => server_binding(*self, name@) matches Some(b) && a@ == b.address@,
                None => server_binding(*self, name@) is None,
            },
    {
        match self.link_server(name) {
            Some(b) => Some(b.address.as_str()),
            None => None,
        }
    }

    /// Dial string for a given link name: "server_address:port".
    pub fn link_dial(&self, name: &str) -> (r: Option<String>)
        ensures
            match r {
                Some(d) => lookup(link_entries(self.links), name@) matches Some(l)
                    && server_binding(*self, name@) matches Some(b)
                    && d@ == b.address@ + ":"@ + decimal(l.port as nat),
                None => server_binding(*self, name@) is None,
            },
    {
        let link = match link_map_get(&self.links, name) {
            Some(l) => l,
            None => return None,
        };
        let address = match self.link_server_address(name) {
            Some(a) => a,
            None => return None,
        };
        let port = crate::strs::dec16(link.port);
        Some(s3(address, ":", port.as_str()))
    }

    /// Listen address for a host on a link (address/subnet).
    pub fn listen_address(&self, host_name: &str, link_name: &str) -> (r: Option<String>)
        ensures
            match r {
                Some(s) => lookup(host_entries(self.hosts), host_name@) matches Some(h)
                    && lookup(link_entries(self.links), link_name@) matches Some(l)
                    && binding_of(h, link_name@) matches Some(b)
                    && cidr_parse(l.subnet@) matches Some((_, p))
                    && s@ == b.address@ + "/"@ + decimal(p as nat),
                None => !(lookup(host_entries(self.hosts), host_name@) matches Some(h)
                    && lookup(link_entries(self.links), link_name@) matches Some(l)
                    && binding_of(h, link_name@) is Some && cidr_parse(l.subnet@) is Some),
            },
    {
        let host = match host_map_get(&self.hosts, host_name) {
            Some(h) => h,
            None => return None,
        };
        let link = match link_map_get(&self.links, link_name) {
            Some(l) => l,
            None => return None,
        };
        let binding = match binding_map_get(&host.links, link_name) {
            Some(b) => b,
            None => return None,
        };
        match parse_cidr(link.subnet.as_str()) {
            Some((_, prefix)) => {
                let p = crate::strs::dec16(prefix as u16);
                Some(s3(binding.address.as_str(), "/", p.as_str()))
            },
            None => None,
        }
    }

    /// Allowed IPs for a host on a link.
    pub fn allowed_ips(&self, host_name: &str, link_name: &str) -> (r: Option<Vec<String>>)
        ensures
            match r {
                Some(v) => lookup(host_entries(self.hosts), host_name@) matches Some(h)
                    && binding_of(h, link_name@) matches Some(b)
                    && address_prefix_len_spec(b.address@) matches Some(p)
                    && v@.map_values(|s: String| s@) == seq![b.address@ + "/"@ + decimal(p as nat)],
                None => !(lookup(host_entries(self.hosts), host_name@) matches Some(h)
                    && binding_of(h, link_name@) matches Some(b)
                    && address_prefix_len_spec(b.address@) is Some),
            },
    {
        let host = match host_map_get(&self.hosts, host_name) {
            Some(h) => h,
            None => return None,
        };
        let binding = match binding_map_get(&host.links, link_name) {
            Some(b) => b,
            None => return None,
        };
        match address_prefix_len(binding.address.as_str()) {
            Some(p) => {
                let ps = crate::strs::dec16(p as u16);
                let mut v: Vec<String> = Vec::new();
                v.push(s3(binding.address.as_str(), "/", ps.as_str()));
                assert(v@.map_values(|s: String| s@) =~= seq![
                    binding.address@ + "/"@ + decimal(p as nat),
                ]);
                Some(v)
            },
            None => None,
        }
    }

    /// Client bindings for a link.
    pub fn link_clients(&self, name: &str) -> (r: Vec<(&str, &LinkBinding)>)
        ensures
            r@.map_values(|p: (&str, &LinkBinding)| (p.0@, *p.1)) == flat_map(
                host_entries(self.hosts),
                client_fn(name@),
            ),
    {
        let ghost hosts = host_entries(self.hosts);
        let ghost f = client_fn(name@);
        let len = host_map_len(&self.hosts);
        let mut r: Vec<(&str, &LinkBinding)> = Vec::new();
        let mut i: usize = 0;
        while i < len
            invariant
                hosts == host_entries(self.hosts),
                f == client_fn(name@),
                len == hosts.len(),
                0 <= i <= len,
                r@.map_values(|p: (&str, &LinkBinding)| (p.0@, *p.1)) == flat_map(
                    hosts.take(i as int),
                    f,
                ),
            decreases len - i,
        {
            proof {
                lemma_flat_map_step(hosts, f, i as int);
            }
            let ghost before = r@;
            match host_map_get_index(&self.hosts, i) {
                Some((hn, h)) => {
                    if let Some(b) = binding_map_get(&h.links, name) {
                        if b.role == LinkRole::Client {
                            r.push((hn.as_str(), b));
                        }
                    }
                    assert(r@.map_values(|p: (&str, &LinkBinding)| (p.0@, *p.1)) =~= before.map_values(
                        |p: (&str, &LinkBinding)| (p.0@, *p.1),
                    ) + f(i as int, hosts[i as int]));
                },
                None => {},
            }
            i += 1;
        }
        proof {
            lemma_flat_map_all(hosts, f);
        }
        r
    }

    /// Server peer entries for a link.
    pub fn link_peers(&self, name: &str) -> (r: Vec<PeerEntry<'_>>)
        ensures
            r@.map_values(|p: PeerEntry| p@) == flat_map(
                host_entries(self.hosts),
                peer_fn(server_name(*self, name@), name@),
            ),
    {
        let server = self.link_server_host(name);
        let ghost sv = server_name(*self, name@);
        let ghost hosts = host_entries(self.hosts);
        let ghost f = peer_fn(sv, name@);
        let len = host_map_len(&self.hosts);
        let mut r: Vec<PeerEntry> = Vec::new();
        let mut i: usize = 0;
        while i < len
            invariant
                hosts == host_entries(self.hosts),
                sv == server_name(*self, name@),
                f == peer_fn(sv, name@),
                match server {
                    Some(s) => sv == Some(s@),
                    None => sv is None,
                },
                len == hosts.len(),
                0 <= i <= len,
                r@.map_values(|p: PeerEntry| p@) == flat_map(hosts.take(i as int), f),
            decreases len - i,
        {
            proof {
                lemma_flat_map_step(hosts, f, i as int);
            }
            let ghost before = r@;
            match host_map_get_index(&self.hosts, i) {
                Some((hn, h)) => {
                    let is_server = match server {
                        Some(s) => str_eq(s, hn.as_str()),
                        None => false,
                    };
                    if !is_server {
                        if let Some(b) = binding_map_get(&h.links, name) {
                            if let Some(p) = address_prefix_len(b.address.as_str()) {
                                let key: &str = match &b.public_key {
                                    Some(k) => k.as_str(),
                                    None => "",
                                };
                                proof {
                                    reveal_strlit("");
                                }
                                assert(key@ == key_text(b.public_key));
                                let ps = crate::strs::dec16(p as u16);
                                let mut ips: Vec<String> = Vec::new();
                                ips.push(s3(b.address.as_str(), "/", ps.as_str()));
                                let entry = PeerEntry {
                                    hostname: hn.as_str(),
                                    public_key: key,
                                    allowed_ips: ips,
                                    address: copy(b.address.as_str()),
                                };
                                assert(entry@.allowed_ips =~= seq![
                                    b.address@ + "/"@ + decimal(p as nat),
                                ]);
                                r.push(entry);
                            }
                        }
                    }
                    assert(r@.map_values(|p: PeerEntry| p@) =~= before.map_values(
                        |p: PeerEntry| p@,
                    ) + f(i as int, hosts[i as int]));
                },
                None => {},
            }
            i += 1;
        }
        proof {
            lemma_flat_map_all(hosts, f);
        }
        r
    }

    /// Best SSH address for a host: LAN, WireGuard, then direct-link.
    pub fn best_ssh_address(&self, host_name: &str) -> (r: Option<&str>)
        ensures
            match r {
                Some(a) => ssh_address(*self, host_name@) == Some(a@),
                None => ssh_address(*self, host_name@) is None,
            },
    {
        let mut policy: Vec<AddressKind> = Vec::new();
        policy.push(AddressKind::Lan);
        policy.push(AddressKind::Link(copy("wg-home")));
        policy.push(AddressKind::DirectLink);
        let r = self.resolve_host_address(host_name, policy.as_slice());
        proof {
            let p = policy@;
            assert(p.drop_first()[0] == p[1]);
            assert(p.drop_first().drop_first()[0] == p[2]);
            assert(p.drop_first().drop_first().drop_first().len() == 0);
            reveal_with_fuel(first_address, 4);
        }
        r
    }

    /// Best SSH address for a host (prefer LAN, then WG, then direct-link).
    pub fn resolve_host_address<'a>(&'a self, host_name: &str, policy: &[AddressKind]) -> (r: Option<&'a str>)
        ensures
            match r {
                Some(a) => resolve_address(*self, host_name@, policy@) == Some(a@),
                None => resolve_address(*self, host_name@, policy@) is None,
            },
    {
        let host = match host_map_get(&self.hosts, host_name) {
            Some(h) => h,
            None => return None,
        };
        assert(policy@.skip(0) =~= policy@);
        let mut i: usize = 0;
        while i < policy.len()
            invariant
                0 <= i <= policy@.len(),
                lookup(host_entries(self.hosts), host_name@) == Some(*host),
                first_address(*host, policy@) == first_address(*host, policy@.skip(i as int)),
            decreases policy@.len() - i,
        {
            let ghost rest = policy@.skip(i as int);
            assert(rest[0] == policy@[i as int]);
            assert(rest.drop_first() =~= policy@.skip(i + 1));
            let found: Option<&str> = match &policy[i] {
                AddressKind::Lan => match &host.network.lan_ip {
                    Some(a) => Some(a.as_str()),
                    None => None,
                },
                AddressKind::DirectLink => match &host.network.direct_link_ip {
                    Some(a) => Some(a.as_str()),
                    None => match binding_map_get(&host.links, "direct-link") {
                        Some(b) => Some(b.address.as_str()),
                        None => None,
                    },
                },
                AddressKind::Link(n) => match binding_map_get(&host.links, n.as_str()) {
                    Some(b) => Some(b.address.as_str()),
                    None => None,
                },
            };
            match found {
                Some(a) => {
                    assert(kind_address(*host, rest[0]) == Some(a@));
                    assert(first_address(*host, rest) == Some(a@));
                    return Some(a);
                },
                None => {},
            }
            i += 1;
        }
        None
    }

    /// Get an endpoint by name.
    pub fn endpoint(&self, name: &str) -> (r: Option<&Endpoint>)
        ensures
            match r {
                Some(e) => lookup(endpoint_entries(self.services.endpoints), name@) == Some(*e),
                None => lookup(endpoint_entries(self.services.endpoints), name@) is None,
            },
    {
        endpoint_map_get(&self.services.endpoints, name)
    }

    /// Get an HTTP site by name.
    pub fn http_site(&self, name: &str) -> (r: Option<&HttpSite>)
        ensures
            match r {
                Some(s) => lookup(http_site_entries(self.services.http_sites), name@) == Some(*s),
                None => lookup(http_site_entries(self.services.http_sites), name@) is None,
            },
    {
        http_site_map_get(&self.services.http_sites, name)
    }

    /// Get a host-local VPN profile by host and profile name.
    pub fn vpn_profile(&self, host_name: &str, profile_name: &str) -> (r: Option<&VpnProfile>)
        ensures
            match r {
                Some(p) => lookup(host_entries(self.hosts), host_name@) matches Some(h) && lookup(
                    vpn_profile_entries(h.vpn_profiles),
                    profile_name@,
                ) == Some(*p),
                None => !(lookup(host_entries(self.hosts), host_name@) matches Some(h) && lookup(
                    vpn_profile_entries(h.vpn_profiles),
                    profile_name@,
                ) is Some),
            },
    {
        match host_map_get(&self.hosts, host_name) {
            Some(h) => vpn_profile_map_get(&h.vpn_profiles, profile_name),
            None => None,
        }
    }

    /// Endpoints targeting a host, preserving declaration order.
    pub fn endpoints_for_host(&self, host_name: &str) -> (r: Vec<(&str, &Endpoint)>)
        ensures
            r@.map_values(|p: (&str, &Endpoint)| (p.0@, *p.1)) == flat_map(
                endpoint_entries(self.services.endpoints),
                endpoint_target_fn(host_name@),
            ),
    {
        let ghost eps = endpoint_entries(self.services.endpoints);
        let ghost f = endpoint_target_fn(host_name@);
        let len = endpoint_map_len(&self.services.endpoints);
        let mut r: Vec<(&str, &Endpoint)> = Vec::new();
        let mut i: usize = 0;
        while i < len
            invariant
                eps == endpoint_entries(self.services.endpoints),
                f == endpoint_target_fn(host_name@),
                len == eps.len(),
                0 <= i <= len,
                r@.map_values(|p: (&str, &Endpoint)| (p.0@, *p.1)) == flat_map(eps.take(i as int), f),
            decreases len - i,
        {
            proof {
                lemma_flat_map_step(eps, f, i as int);
            }
            let ghost before = r@;
            match endpoint_map_get_index(&self.services.endpoints, i) {
                Some((n, e)) => {
                    if str_eq(e.target_host.as_str(), host_name) {
                        r.push((n.as_str(), e));
                    }
                    assert(r@.map_values(|p: (&str, &Endpoint)| (p.0@, *p.1)) =~= before.map_values(
                        |p: (&str, &Endpoint)| (p.0@, *p.1),
                    ) + f(i as int, eps[i as int]));
                },
                None => {},
            }
            i += 1;
        }
        proof {
            lemma_flat_map_all(eps, f);
        }
        r
    }

    /// Resolve the endpoint an ingress host should dial.
    pub fn endpoint_for_ingress<'a>(&'a self, endpoint_name: &'a str, ingress_host: &str) -> (r: Option<
        (&'a str, &'a Endpoint),
    >)
        ensures
            match r {
                Some((n, e)) => ingress_endpoint(*self, endpoint_name@, ingress_host@) == Some(
                    (n@, *e),
                ),
                None => ingress_endpoint(*self, endpoint_name@, ingress_host@) is None,
            },
    {
        let endpoint = match endpoint_map_get(&self.services.endpoints, endpoint_name) {
            Some(e) => e,
            None => return None,
        };
        if endpoint.bind == EndpointBind::Loopback && !str_eq(endpoint.target_host.as_str(), ingress_host) {
            let remote_name = match &endpoint.remote_via {
                Some(r) => r.as_str(),
                None => return None,
            };
            match endpoint_map_get(&self.services.endpoints, remote_name) {
                Some(re) => Some((remote_name, re)),
                None => None,
            }
        } else {
            Some((endpoint_name, endpoint))
        }
    }

    /// Whether an FQDN belongs to a DNS zone.
    pub fn host_in_zone(fqdn: &str, zone: &str) -> (r: bool)
        ensures
            r == in_zone(fqdn@, zone@),
    {
        host_in_zone_exec(fqdn, zone)
    }

    /// Managed zone for an FQDN, preferring the longest matching suffix.
    pub fn zone_for_host<'a>(&'a self, fqdn: &str) -> (r: Option<&'a str>)
        ensures
            match r {
                Some(z) => zone_of(*self, fqdn@) == Some(z@),
                None => zone_of(*self, fqdn@) is None,
            },
    {
        let zones = zones_in_use_exec(&self.domains);
        proof {
            lemma_best_zone(zones@.map_values(|z: String| z@), fqdn@);
        }
        match best_zone_exec(zones, fqdn) {
            Some(i) => {
                assert(zones@.map_values(|z: String| z@)[i as int] == zones@[i as int]@);
                Some(zones[i].as_str())
            },
            None => None,
        }
    }

    /// Relative DNS owner name for an FQDN inside a zone.
    pub fn relative_name<'a>(fqdn: &'a str, zone: &str) -> (r: Option<&'a str>)
        ensures
            match r {
                Some(n) => relative(fqdn@, zone@) == Some(n@),
                None => relative(fqdn@, zone@) is None,
            },
    {
        if str_eq(fqdn, zone) {
            return Some("@");
        }
        if host_in_zone_exec(fqdn, zone) {
            let n = fqdn.unicode_len();
            let z = zone.unicode_len();
            Some(fqdn.substring_char(0, n - z - 1))
        } else {
            None
        }
    }

    /// Dynamic hosts that belong to a zone.
    pub fn dynamic_hosts_for_zone<'a>(&'a self, zone: &str) -> (r: Vec<&'a DynamicHost>)
        ensures
            r@.map_values(|d: &DynamicHost| *d) == zone_hosts(*self, zone@),
    {
        let ghost f = zone_hosts_fn(*self, zone@);
        let hosts = &self.domains.dynamic_hosts;
        let mut r: Vec<&DynamicHost> = Vec::new();
        let mut i: usize = 0;
        while i < hosts.len()
            invariant
                f == zone_hosts_fn(*self, zone@),
                hosts == &self.domains.dynamic_hosts,
                0 <= i <= hosts@.len(),
                r@.map_values(|d: &DynamicHost| *d) == flat_map(hosts@.take(i as int), f),
            decreases hosts@.len() - i,
        {
            proof {
                lemma_flat_map_step(hosts@, f, i as int);
            }
            let ghost before = r@;
            let d = &hosts[i];
            let in_zone = match self.zone_for_host(d.fqdn.as_str()) {
                Some(z) => str_eq(z, zone),
                None => false,
            };
            if in_zone {
                r.push(d);
            }
            assert(r@.map_values(|d: &DynamicHost| *d) =~= before.map_values(|d: &DynamicHost| *d)
                + f(i as int, hosts@[i as int]));
            i += 1;
        }
        proof {
            lemma_flat_map_all(hosts@, f);
        }
        r
    }

    /// Provider-neutral A/AAAA ownership intent for dynamic hosts in a zone.
    pub fn dynamic_host_address_excludes(&self, zone: &str) -> (r: Vec<AddressExclude>)
        ensures
            r@.map_values(|e: AddressExclude| exclude_view(e)) == flat_map(
                zone_hosts(*self, zone@),
                exclude_fn(zone@),
            ),
    {
        let hosts = self.dynamic_hosts_for_zone(zone);
        let ghost hs = zone_hosts(*self, zone@);
        let ghost f = exclude_fn(zone@);
        let mut r: Vec<AddressExclude> = Vec::new();
        let mut i: usize = 0;
        while i < hosts.len()
            invariant
                hs == zone_hosts(*self, zone@),
                f == exclude_fn(zone@),
                hosts@.map_values(|d: &DynamicHost| *d) == hs,
                0 <= i <= hosts@.len(),
                r@.map_values(|e: AddressExclude| exclude_view(e)) == flat_map(hs.take(i as int), f),
            decreases hosts@.len() - i,
        {
            proof {
                lemma_flat_map_step(hs, f, i as int);
            }
            let ghost before = r@;
            let fqdn = hosts[i].fqdn.as_str();
            assert(hs[i as int] == *hosts@[i as int]);
            let name = match Topology::relative_name(fqdn, zone) {
                Some(n) => n,
                None => fqdn,
            };
            proof {
                reveal_strlit("A");
                reveal_strlit("AAAA");
            }
            r.push(AddressExclude { name: copy(name), record_type: "A" });
            r.push(AddressExclude { name: copy(name), record_type: "AAAA" });
            assert(r@.map_values(|e: AddressExclude| exclude_view(e)) =~= before.map_values(
                |e: AddressExclude| exclude_view(e),
            ) + f(i as int, hs[i as int]));
            i += 1;
        }
        proof {
            lemma_flat_map_all(hs, f);
        }
        r
    }

    /// HTTP site hostnames keyed by site name.
    pub fn service_hosts(&self) -> (r: IndexMap<String, String>)
        ensures
            string_entries(r) == site_host_map(http_site_entries(self.services.http_sites)),
    {
        let ghost sites = http_site_entries(self.services.http_sites);
        let len = http_site_map_len(&self.services.http_sites);
        let mut r = string_map_new();
        let mut i: usize = 0;
        while i < len
            invariant
                sites == http_site_entries(self.services.http_sites),
                len == sites.len(),
                0 <= i <= len,
                string_entries(r) == site_host_map(sites.take(i as int)),
            decreases len - i,
        {
            assert(sites.take(i + 1).drop_last() =~= sites.take(i as int));
            match http_site_map_get_index(&self.services.http_sites, i) {
                Some((name, site)) => {
                    string_map_insert(&mut r, copy(name.as_str()), copy(site.hostname.as_str()));
                },
                None => {},
            }
            i += 1;
        }
        assert(sites.take(len as int) =~= sites);
        r
    }

    /// Generic CNAME intents for public service hostnames.
    pub fn service_cname_intents(&self) -> (r: Vec<CnameIntent>)
        ensures
            r@.map_values(|c: CnameIntent| c@) == flat_map(
                http_site_entries(self.services.http_sites),
                service_cname_fn(*self),
            ),
    {
        let ghost sites = http_site_entries(self.services.http_sites);
        let ghost f = service_cname_fn(*self);
        let len = http_site_map_len(&self.services.http_sites);
        let mut r: Vec<CnameIntent> = Vec::new();
        let mut i: usize = 0;
        while i < len
            invariant
                sites == http_site_entries(self.services.http_sites),
                f == service_cname_fn(*self),
                len == sites.len(),
                0 <= i <= len,
                r@.map_values(|c: CnameIntent| c@) == flat_map(sites.take(i as int), f),
            decreases len - i,
        {
            proof {
                lemma_flat_map_step(sites, f, i as int);
            }
            let ghost before = r@;
            match http_site_map_get_index(&self.services.http_sites, i) {
                Some((name, site)) => {
                    if site.dns_publication == DnsPublication::Managed && site.access != HttpAccess::Vpn {
                        if let Some(zone) = self.zone_for_host(site.hostname.as_str()) {
                            let h = site.hostname.as_str();
                            let rel = match Topology::relative_name(h, zone) {
                                Some(n) => n,
                                None => h,
                            };
                            proof {
                                reveal_strlit("service");
                            }
                            r.push(CnameIntent {
                                name: copy(name.as_str()),
                                hostname: copy(h),
                                zone: copy(zone),
                                relative_name: copy(rel),
                                target: copy(zone),
                                proxied: site.access == HttpAccess::Cloudflare,
                                comment: None,
                                source: "service",
                            });
                        }
                    }
                    assert(r@.map_values(|c: CnameIntent| c@) =~= before.map_values(
                        |c: CnameIntent| c@,
                    ) + f(i as int, sites[i as int]));
                },
                None => {},
            }
            i += 1;
        }
        proof {
            lemma_flat_map_all(sites, f);
        }
        r
    }

    /// Generic CNAME intents for Pages sites.
    pub fn pages_cname_intents(&self, base_zone: Option<&str>) -> (r: Vec<CnameIntent>)
        ensures
            r@.map_values(|c: CnameIntent| c@) == match pages_base(
                *self,
                match base_zone {
                    Some(z) => Some(z@),
                    None => None,
                },
            ) {
                Some(base) => flat_map(self.domains.pages_sites@, pages_cname_fn(*self, base)),
                None => Seq::empty(),
            },
    {
        let default_zone: &str = match base_zone {
            Some(z) => z,
            None => {
                if self.domains.zones.len() > 0 {
                    self.domains.zones[0].as_str()
                } else {
                    let r: Vec<CnameIntent> = Vec::new();
                    assert(r@.map_values(|c: CnameIntent| c@) =~= Seq::<CnameView>::empty());
                    return r;
                }
            },
        };
        let ghost f = pages_cname_fn(*self, default_zone@);
        let sites = &self.domains.pages_sites;
        let mut r: Vec<CnameIntent> = Vec::new();
        let mut i: usize = 0;
        while i < sites.len()
            invariant
                f == pages_cname_fn(*self, default_zone@),
                sites == &self.domains.pages_sites,
                0 <= i <= sites@.len(),
                r@.map_values(|c: CnameIntent| c@) == flat_map(sites@.take(i as int), f),
            decreases sites@.len() - i,
        {
            proof {
                lemma_flat_map_step(sites@, f, i as int);
            }
            let ghost before = r@;
            let site = &sites[i];
            let hostname = s3(site.subdomain.as_str(), ".", default_zone);
            if let Some(zone) = self.zone_for_host(hostname.as_str()) {
                proof {
                    reveal_strlit("pages");
                }
                r.push(CnameIntent {
                    name: copy(site.subdomain.as_str()),
                    hostname: hostname,
                    zone: copy(zone),
                    relative_name: copy(site.subdomain.as_str()),
                    target: copy(site.cname_target.as_str()),
                    proxied: false,
                    comment: None,
                    source: "pages",
                });
            }
            assert(r@.map_values(|c: CnameIntent| c@) =~= before.map_values(|c: CnameIntent| c@)
                + f(i as int, sites@[i as int]));
            i += 1;
        }
        proof {
            lemma_flat_map_all(sites@, f);
        }
        r
    }
}

} // verus!
