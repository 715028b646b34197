use fleetix::accessors::{AddressExclude, AddressKind};
use fleetix::topology::{
    DnsPublication, Domains, DynamicHost, Endpoint, EndpointBind, EndpointTransport, Host,
    HttpAccess, HttpAction, HttpMatch, HttpRoute, HttpSite, Link, LinkBinding, LinkRole, Network,
    PagesSite, Redirect, Services, Topology,
};
use indexmap::IndexMap;

fn binding(address: &str, role: LinkRole) -> LinkBinding {
    LinkBinding {
        address: address.to_string(),
        public_key: None,
        role,
        external_interface: None,
        mac_address: None,
    }
}

fn empty_host() -> Host {
    Host {
        system: String::new(),
        device_type: None,
        availability_class: "unknown".to_string(),
        host_pubkey: None,
        host_names: vec![],
        network: Network::default(),
        rebuild: Default::default(),
        links: IndexMap::new(),
        users: IndexMap::new(),
        vpn_profiles: IndexMap::new(),
        gpu: Default::default(),
        storage: Default::default(),
    }
}

fn test_topology() -> Topology {
    let mut hub_links = IndexMap::new();
    hub_links.insert("wg-home".to_string(), binding("198.51.100.5", LinkRole::Client));
    hub_links.insert("direct-link".to_string(), binding("203.0.113.1", LinkRole::Client));

    let mut hosts = IndexMap::new();
    hosts.insert(
        "hub".to_string(),
        Host {
            system: "x86_64-linux".to_string(),
            network: Network {
                lan_ip: Some("192.0.2.10".to_string()),
                direct_link_ip: Some("203.0.113.1".to_string()),
                ..Default::default()
            },
            links: hub_links,
            ..empty_host()
        },
    );

    let mut spoke_links = IndexMap::new();
    spoke_links.insert("direct-link".to_string(), binding("203.0.113.2", LinkRole::Client));
    hosts.insert(
        "spoke".to_string(),
        Host {
            system: "x86_64-linux".to_string(),
            links: spoke_links,
            ..empty_host()
        },
    );

    Topology {
        schema_version: 2,
        links: IndexMap::new(),
        hosts,
        domains: Domains {
            zones: vec!["example.test".to_string(), "internal.example.test".to_string()],
            mail_subdomain: None,
            vpn_subdomain: None,
            managed_zones: vec!["example.test".to_string(), "internal.example.test".to_string()],
            dynamic_hosts: vec![
                DynamicHost {
                    fqdn: "example.test".to_string(),
                    proxied: true,
                    zone: None,
                },
                DynamicHost {
                    fqdn: "wg.example.test".to_string(),
                    proxied: false,
                    zone: None,
                },
                DynamicHost {
                    fqdn: "host.internal.example.test".to_string(),
                    proxied: false,
                    zone: None,
                },
            ],
            dns_zones: vec![],
            pages_sites: vec![PagesSite {
                subdomain: "docs".to_string(),
                repository: "example/docs".to_string(),
                cname_target: "example.github.io".to_string(),
            }],
            redirects: vec![Redirect {
                from: "example.test".to_string(),
                to: "https://dashboard.example.test".to_string(),
                status: 301,
                preserve_path: true,
            }],
        },
        services: Services {
            endpoints: IndexMap::from([
                (
                    "photos".to_string(),
                    Endpoint {
                        target_host: "hub".to_string(),
                        port: 2283,
                        transport: EndpointTransport::Http,
                        bind: EndpointBind::Loopback,
                        remote_via: Some("photos-lan".to_string()),
                        tls_server_name: None,
                        tcp_probe: true,
                    },
                ),
                (
                    "photos-lan".to_string(),
                    Endpoint {
                        target_host: "hub".to_string(),
                        port: 2283,
                        transport: EndpointTransport::Http,
                        bind: EndpointBind::Lan,
                        remote_via: None,
                        tls_server_name: None,
                        tcp_probe: true,
                    },
                ),
            ]),
            http_sites: IndexMap::from([
                (
                    "photos".to_string(),
                    HttpSite {
                        hostname: "photos.example.test".to_string(),
                        ingress: "public".to_string(),
                        access: HttpAccess::Cloudflare,
                        dns_publication: DnsPublication::Managed,
                        routes: vec![HttpRoute {
                            matcher: HttpMatch::default(),
                            action: HttpAction::Proxy {
                                endpoint: "photos".to_string(),
                                strip_prefix: None,
                            },
                            auth_policy: None,
                            response_headers: IndexMap::new(),
                        }],
                    },
                ),
                (
                    "models".to_string(),
                    HttpSite {
                        hostname: "models.internal.example.test".to_string(),
                        ingress: "vpn".to_string(),
                        access: HttpAccess::Vpn,
                        dns_publication: DnsPublication::Unpublished,
                        routes: vec![HttpRoute {
                            matcher: HttpMatch::default(),
                            action: HttpAction::Respond {
                                status: 404,
                                body: None,
                            },
                            auth_policy: None,
                            response_headers: IndexMap::new(),
                        }],
                    },
                ),
            ]),
        },
        deployment: Default::default(),
        trust: Default::default(),
    }
}

fn wg_home_link() -> Link {
    Link {
        subnet: "198.51.100.0/24".to_string(),
        port: 54321,
        endpoint_subdomain: None,
        exempt_from_proxy: false,
    }
}

#[test]
fn resolves_host_addresses_by_explicit_policy() {
    let topo = test_topology();
    assert_eq!(
        topo.resolve_host_address("hub", &[AddressKind::Lan]),
        Some("192.0.2.10")
    );
    assert_eq!(
        topo.resolve_host_address("spoke", &[AddressKind::DirectLink]),
        Some("203.0.113.2")
    );
    assert_eq!(
        topo.resolve_host_address("hub", &[AddressKind::Link("wg-home".to_string())]),
        Some("198.51.100.5")
    );
}

#[test]
fn resolves_endpoints_for_ingress_hosts() {
    let topo = test_topology();
    assert_eq!(topo.endpoint_for_ingress("photos", "hub").unwrap().0, "photos");
    assert_eq!(
        topo.endpoint_for_ingress("photos", "spoke").unwrap().0,
        "photos-lan"
    );
}

#[test]
fn filters_endpoints_for_host() {
    let topo = test_topology();
    assert_eq!(topo.endpoints_for_host("hub").len(), 2);
    assert!(topo.endpoints_for_host("spoke").is_empty());
}

#[test]
fn derives_domain_zone_and_relative_names() {
    let topo = test_topology();
    assert!(Topology::host_in_zone("api.example.test", "example.test"));
    assert_eq!(
        topo.zone_for_host("host.internal.example.test"),
        Some("internal.example.test")
    );
    assert_eq!(
        Topology::relative_name("example.test", "example.test"),
        Some("@")
    );
    assert_eq!(
        Topology::relative_name("wg.example.test", "example.test"),
        Some("wg")
    );
}

#[test]
fn derives_dynamic_host_excludes() {
    let topo = test_topology();
    let excludes = topo.dynamic_host_address_excludes("example.test");
    assert_eq!(
        excludes,
        vec![
            AddressExclude {
                name: "@".to_string(),
                record_type: "A",
            },
            AddressExclude {
                name: "@".to_string(),
                record_type: "AAAA",
            },
            AddressExclude {
                name: "wg".to_string(),
                record_type: "A",
            },
            AddressExclude {
                name: "wg".to_string(),
                record_type: "AAAA",
            },
        ]
    );

    let internal_excludes = topo.dynamic_host_address_excludes("internal.example.test");
    assert_eq!(
        internal_excludes,
        vec![
            AddressExclude {
                name: "host".to_string(),
                record_type: "A",
            },
            AddressExclude {
                name: "host".to_string(),
                record_type: "AAAA",
            },
        ]
    );
}

#[test]
fn exposes_redirects_service_hosts_and_cname_intents() {
    let topo = test_topology();
    assert_eq!(topo.domains.redirects[0].from, "example.test");
    assert_eq!(topo.service_hosts()["photos"], "photos.example.test");

    let service_intents = topo.service_cname_intents();
    assert!(service_intents.iter().any(|intent| {
        intent.name == "photos"
            && intent.relative_name == "photos"
            && intent.target == "example.test"
            && intent.proxied
    }));
    assert!(!service_intents.iter().any(|intent| intent.name == "models"));

    let page_intents = topo.pages_cname_intents(None);
    assert_eq!(page_intents.len(), 1);
    assert_eq!(page_intents[0].relative_name, "docs");
    assert_eq!(page_intents[0].target, "example.github.io");

    let mut nested_topo = topo;
    nested_topo.domains.pages_sites[0].subdomain = "apt.modde".to_string();
    let nested_intents = nested_topo.pages_cname_intents(None);
    assert_eq!(nested_intents[0].hostname, "apt.modde.example.test");
    assert_eq!(nested_intents[0].relative_name, "apt.modde");
}

#[test]
fn rejects_ambiguous_link_servers() {
    let mut topo = test_topology();
    topo.links.insert("wg-home".to_string(), wg_home_link());
    topo.hosts
        .get_mut("hub")
        .expect("hub fixture")
        .links
        .get_mut("wg-home")
        .expect("hub link fixture")
        .role = LinkRole::Server;

    assert_eq!(topo.link_server_host("wg-home"), Some("hub"));
    assert_eq!(topo.link_server_address("wg-home"), Some("198.51.100.5"));

    topo.hosts
        .get_mut("spoke")
        .expect("spoke fixture")
        .links
        .insert("wg-home".to_string(), binding("198.51.100.6", LinkRole::Server));
    assert!(topo.link_server("wg-home").is_none());
    assert!(topo.link_server_host("wg-home").is_none());
}

#[test]
fn falls_back_to_general_zones_when_managed_zones_are_empty() {
    let mut topo = test_topology();
    topo.domains.managed_zones.clear();
    assert_eq!(
        topo.zone_for_host("host.internal.example.test"),
        Some("internal.example.test")
    );
    assert!(!Topology::host_in_zone("notexample.test", "example.test"));
}

#[test]
fn link_server_needs_a_declared_link() {
    let mut topo = test_topology();
    topo.hosts
        .get_mut("hub")
        .unwrap()
        .links
        .get_mut("wg-home")
        .unwrap()
        .role = LinkRole::Server;
    assert!(topo.link_server("wg-home").is_none());
    topo.links.insert("wg-home".to_string(), wg_home_link());
    assert_eq!(topo.link_server("wg-home").unwrap().address, "198.51.100.5");
}

#[test]
fn link_dial_listen_address_and_allowed_ips() {
    let mut topo = test_topology();
    topo.links.insert("wg-home".to_string(), wg_home_link());
    assert_eq!(topo.link_dial("wg-home"), None);
    topo.hosts
        .get_mut("hub")
        .unwrap()
        .links
        .get_mut("wg-home")
        .unwrap()
        .role = LinkRole::Server;
    assert_eq!(topo.link_dial("wg-home"), Some("198.51.100.5:54321".to_string()));
    assert_eq!(topo.link_cidr("wg-home"), Some("198.51.100.0/24"));
    assert_eq!(
        topo.listen_address("hub", "wg-home"),
        Some("198.51.100.5/24".to_string())
    );
    assert_eq!(topo.listen_address("spoke", "wg-home"), None);
    assert_eq!(
        topo.allowed_ips("hub", "wg-home"),
        Some(vec!["198.51.100.5/32".to_string()])
    );
    assert_eq!(topo.allowed_ips("hub", "missing"), None);
}

#[test]
fn allowed_ips_use_the_address_family_prefix() {
    let mut topo = test_topology();
    topo.hosts
        .get_mut("spoke")
        .unwrap()
        .links
        .insert("wg-six".to_string(), binding("2001:db8::7", LinkRole::Client));
    assert_eq!(
        topo.allowed_ips("spoke", "wg-six"),
        Some(vec!["2001:db8::7/128".to_string()])
    );
    topo.hosts
        .get_mut("spoke")
        .unwrap()
        .links
        .insert("broken".to_string(), binding("not-an-ip", LinkRole::Client));
    assert_eq!(topo.allowed_ips("spoke", "broken"), None);
}

#[test]
fn link_clients_and_peers_leave_out_the_server() {
    let mut topo = test_topology();
    topo.links.insert("wg-home".to_string(), wg_home_link());
    topo.hosts
        .get_mut("hub")
        .unwrap()
        .links
        .get_mut("wg-home")
        .unwrap()
        .role = LinkRole::Server;
    let mut client = binding("198.51.100.6", LinkRole::Client);
    client.public_key = Some("spoke-key".to_string());
    topo.hosts
        .get_mut("spoke")
        .unwrap()
        .links
        .insert("wg-home".to_string(), client);

    let clients = topo.link_clients("wg-home");
    assert_eq!(clients.len(), 1);
    assert_eq!(clients[0].0, "spoke");
    assert_eq!(clients[0].1.address, "198.51.100.6");

    let peers = topo.link_peers("wg-home");
    assert_eq!(peers.len(), 1);
    assert_eq!(peers[0].hostname, "spoke");
    assert_eq!(peers[0].public_key, "spoke-key");
    assert_eq!(peers[0].address, "198.51.100.6");
    assert_eq!(peers[0].allowed_ips, vec!["198.51.100.6/32".to_string()]);
}

#[test]
fn peers_without_a_server_include_every_participant() {
    let topo = test_topology();
    let peers = topo.link_peers("direct-link");
    assert_eq!(peers.len(), 2);
    assert_eq!(peers[0].hostname, "hub");
    assert_eq!(peers[0].public_key, "");
    assert_eq!(peers[1].hostname, "spoke");
}

#[test]
fn best_ssh_address_prefers_lan_then_wireguard_then_direct_link() {
    let mut topo = test_topology();
    assert_eq!(topo.best_ssh_address("hub"), Some("192.0.2.10"));
    assert_eq!(topo.best_ssh_address("spoke"), Some("203.0.113.2"));
    topo.hosts.get_mut("hub").unwrap().network.lan_ip = None;
    assert_eq!(topo.best_ssh_address("hub"), Some("198.51.100.5"));
    assert_eq!(topo.best_ssh_address("missing"), None);
    assert_eq!(topo.resolve_host_address("hub", &[]), None);
}

#[test]
fn lookups_by_name() {
    let topo = test_topology();
    assert_eq!(topo.endpoint("photos").unwrap().port, 2283);
    assert!(topo.endpoint("nope").is_none());
    assert_eq!(
        topo.http_site("models").unwrap().hostname,
        "models.internal.example.test"
    );
    assert!(topo.vpn_profile("hub", "none").is_none());
    assert!(topo.link("wg-home").is_none());
}

#[test]
fn loopback_endpoint_without_remote_via_has_no_ingress_route() {
    let mut topo = test_topology();
    topo.services.endpoints.get_mut("photos").unwrap().remote_via = None;
    assert!(topo.endpoint_for_ingress("photos", "spoke").is_none());
    assert_eq!(topo.endpoint_for_ingress("photos-lan", "spoke").unwrap().0, "photos-lan");
    assert!(topo.endpoint_for_ingress("absent", "spoke").is_none());
}

#[test]
fn relative_names_outside_the_zone_are_none() {
    assert_eq!(Topology::relative_name("example.test.evil", "example.test"), None);
    assert_eq!(Topology::relative_name("deep.wg.example.test", "example.test"), Some("deep.wg"));
    assert!(!Topology::host_in_zone("example.test.evil", "example.test"));
}

#[test]
fn dynamic_hosts_follow_the_longest_zone() {
    let topo = test_topology();
    let in_example: Vec<&str> = topo
        .dynamic_hosts_for_zone("example.test")
        .iter()
        .map(|h| h.fqdn.as_str())
        .collect();
    assert_eq!(in_example, vec!["example.test", "wg.example.test"]);
    assert_eq!(topo.dynamic_hosts_for_zone("other.test").len(), 0);
}

#[test]
fn pages_intents_use_the_given_base_zone_and_need_a_zone() {
    let mut topo = test_topology();
    let intents = topo.pages_cname_intents(Some("internal.example.test"));
    assert_eq!(intents[0].hostname, "docs.internal.example.test");
    assert_eq!(intents[0].zone, "internal.example.test");
    assert_eq!(intents[0].source, "pages");
    assert!(!intents[0].proxied);
    topo.domains.zones.clear();
    assert!(topo.pages_cname_intents(None).is_empty());
}

#[test]
fn service_intents_skip_unmanaged_sites() {
    let mut topo = test_topology();
    topo.services.http_sites.get_mut("photos").unwrap().dns_publication = DnsPublication::External;
    assert!(topo.service_cname_intents().is_empty());
    let hosts = topo.service_hosts();
    assert_eq!(hosts.len(), 2);
    assert_eq!(hosts["models"], "models.internal.example.test");
}
