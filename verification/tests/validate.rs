use fleetix::topology::{
    DnsPublication, Domains, DynamicHost, Endpoint, EndpointBind, EndpointTransport, Gpu, GpuMedia,
    HealthIntent, Host, HttpAccess, HttpAction, HttpMatch, HttpRoute, HttpSite, IngressGroup,
    IngressScope, Link, LinkBinding, LinkRole, NatPmpPortForwarding, PagesSite, PathMatch,
    Redirect, ServiceIntent, Services, Storage, Topology, User, VpnConnection, VpnPortForwarding,
    VpnProfile, WireGuardPeer, WireGuardVpnConnection,
};
use fleetix::validate::{load_outcome, validate, ValidationReport, ValidationSeverity};
use indexmap::IndexMap;

fn v2_topology() -> Topology {
    Topology {
        schema_version: 2,
        ..Default::default()
    }
}

fn endpoint(target_host: &str, bind: EndpointBind) -> Endpoint {
    Endpoint {
        target_host: target_host.to_string(),
        port: 8080,
        transport: EndpointTransport::Http,
        bind,
        remote_via: None,
        tls_server_name: None,
        tcp_probe: true,
    }
}

fn route(matcher: HttpMatch, action: HttpAction) -> HttpRoute {
    HttpRoute {
        matcher,
        action,
        auth_policy: None,
        response_headers: IndexMap::new(),
    }
}

fn has_code(report: &ValidationReport, code: &str) -> bool {
    report.issues.iter().any(|issue| issue.code == code)
}

#[test]
fn validates_dynamic_hosts_against_label_boundaries() {
    let topology = Topology {
        schema_version: 2,
        links: IndexMap::new(),
        hosts: IndexMap::new(),
        domains: Domains {
            zones: vec!["example.test".to_string()],
            mail_subdomain: None,
            vpn_subdomain: None,
            managed_zones: vec![],
            dynamic_hosts: vec![
                DynamicHost {
                    fqdn: "api.example.test".to_string(),
                    proxied: false,
                    zone: None,
                },
                DynamicHost {
                    fqdn: "example.test.evil".to_string(),
                    proxied: false,
                    zone: None,
                },
            ],
            dns_zones: vec![],
            pages_sites: vec![PagesSite {
                subdomain: "apt.modde".to_string(),
                repository: "caniko/apt-modde".to_string(),
                cname_target: "caniko.github.io".to_string(),
            }],
            redirects: vec![],
        },
        services: Services::default(),
        deployment: Default::default(),
        trust: Default::default(),
    };

    let report = validate(&topology);
    assert!(report.warnings().iter().any(|warning| {
        warning.message.contains("example.test.evil")
            && warning.message.contains("not in any managed zone")
    }));
    assert!(report.issues.iter().any(|issue| {
        issue.code == "dns.dynamic_host_outside_managed_zone"
            && issue.value.as_deref() == Some("example.test.evil")
    }));
    assert!(!report
        .warnings()
        .iter()
        .any(|warning| warning.message.contains("api.example.test")));
}

#[test]
fn validates_service_intent_placement_and_health() {
    let mut topology = v2_topology();
    topology.hosts.insert(
        "atlas".to_string(),
        Host {
            system: "x86_64-linux".to_string(),
            availability_class: "always-on".to_string(),
            ..Default::default()
        },
    );
    topology.services.endpoints.insert(
        "pink-raven".to_string(),
        endpoint("atlas", EndpointBind::Loopback),
    );
    topology.deployment.service_intents.push(ServiceIntent {
        name: "pink-raven-runtime".to_string(),
        service_name: Some("pink-raven".to_string()),
        required_hosts: vec!["atlas".to_string()],
        required_availability: Some("always-on".to_string()),
        health: HealthIntent {
            required: true,
            endpoint: Some("/healthz".to_string()),
        },
        ..Default::default()
    });

    assert!(validate(&topology).is_ok());
}

#[test]
fn rejects_service_intent_cycles_and_unknown_hosts() {
    let mut topology = v2_topology();
    topology.deployment.service_intents = vec![
        ServiceIntent {
            name: "first".to_string(),
            preferred_hosts: vec!["missing".to_string()],
            depends_on: vec!["second".to_string()],
            ..Default::default()
        },
        ServiceIntent {
            name: "second".to_string(),
            depends_on: vec!["first".to_string()],
            ..Default::default()
        },
    ];

    let report = validate(&topology);
    assert!(has_code(&report, "deployment.unknown_host"));
    assert!(has_code(&report, "deployment.dependency_cycle"));
}

#[test]
fn accepts_v2_sites_with_ordered_routes_and_last_fallback() {
    let mut topology = v2_topology();
    topology.hosts.insert(
        "atlas".to_string(),
        Host {
            system: "x86_64-linux".to_string(),
            ..Default::default()
        },
    );
    topology.deployment.ingress_groups.insert(
        "public".to_string(),
        IngressGroup {
            scope: IngressScope::Public,
            hosts: vec!["atlas".to_string()],
        },
    );
    topology.services.endpoints.insert(
        "foundry".to_string(),
        endpoint("atlas", EndpointBind::Loopback),
    );
    topology.services.http_sites.insert(
        "foundry".to_string(),
        HttpSite {
            hostname: "vtt.example.test".to_string(),
            ingress: "public".to_string(),
            access: HttpAccess::Direct,
            dns_publication: DnsPublication::Unpublished,
            routes: vec![
                route(
                    HttpMatch {
                        paths: vec![PathMatch::Prefix {
                            value: "/api".to_string(),
                        }],
                        absent_query_params: vec![],
                    },
                    HttpAction::Proxy {
                        endpoint: "foundry".to_string(),
                        strip_prefix: None,
                    },
                ),
                route(
                    HttpMatch::default(),
                    HttpAction::Respond {
                        status: 404,
                        body: None,
                    },
                ),
            ],
        },
    );

    assert!(validate(&topology).is_ok());
}

#[test]
fn rejects_invalid_route_refs_and_reachability() {
    let mut topology = v2_topology();
    topology.hosts.insert(
        "ingress".to_string(),
        Host {
            system: "x86_64-linux".to_string(),
            ..Default::default()
        },
    );
    topology.hosts.insert(
        "target".to_string(),
        Host {
            system: "x86_64-linux".to_string(),
            ..Default::default()
        },
    );
    topology.deployment.ingress_groups.insert(
        "public".to_string(),
        IngressGroup {
            scope: IngressScope::Public,
            hosts: vec!["ingress".to_string()],
        },
    );
    topology.services.endpoints.insert(
        "local".to_string(),
        endpoint("target", EndpointBind::Loopback),
    );
    topology.services.endpoints.insert(
        "bad-remote".to_string(),
        Endpoint {
            remote_via: Some("missing-remote".to_string()),
            ..endpoint("target", EndpointBind::Loopback)
        },
    );
    topology
        .services
        .endpoints
        .insert("vpn".to_string(), endpoint("target", EndpointBind::Vpn));
    topology.services.endpoints.insert(
        "bad-vpn-remote".to_string(),
        Endpoint {
            remote_via: Some("vpn".to_string()),
            ..endpoint("target", EndpointBind::Loopback)
        },
    );
    topology.services.http_sites.insert(
        "broken".to_string(),
        HttpSite {
            hostname: "broken.example.test".to_string(),
            ingress: "public".to_string(),
            access: HttpAccess::Direct,
            dns_publication: DnsPublication::Unpublished,
            routes: vec![
                route(
                    HttpMatch::default(),
                    HttpAction::Proxy {
                        endpoint: "local".to_string(),
                        strip_prefix: None,
                    },
                ),
                route(
                    HttpMatch {
                        paths: vec![PathMatch::Exact {
                            value: "api".to_string(),
                        }],
                        absent_query_params: vec![String::new()],
                    },
                    HttpAction::Proxy {
                        endpoint: "missing".to_string(),
                        strip_prefix: Some("api".to_string()),
                    },
                ),
                route(
                    HttpMatch {
                        paths: vec![PathMatch::Exact {
                            value: "api".to_string(),
                        }],
                        absent_query_params: vec![String::new()],
                    },
                    HttpAction::Respond {
                        status: 700,
                        body: None,
                    },
                ),
            ],
        },
    );

    let report = validate(&topology);
    for code in [
        "site.route_fallback_not_last",
        "site.route_path_not_absolute",
        "site.route_unknown_endpoint",
        "site.route_strip_prefix_not_absolute",
        "site.route_duplicate_match",
        "site.route_empty_absent_query_param",
        "site.route_unreachable_endpoint",
        "site.route_invalid_response_status",
        "endpoint.unknown_remote_via",
        "endpoint.invalid_remote_via",
    ] {
        assert!(
            has_code(&report, code),
            "missing validation issue {code}: {:?}",
            report.issues
        );
    }
}

#[test]
fn validates_laptop_media_route_and_storage_paths() {
    let mut topology = v2_topology();
    topology.hosts.insert(
        "nomad".to_string(),
        Host {
            system: "x86_64-linux".to_string(),
            gpu: Gpu {
                media: Some(GpuMedia {
                    vendor: "vulkan".to_string(),
                    render_node: "/sys/class/drm/renderD128".to_string(),
                    libva_driver: String::new(),
                }),
                ..Default::default()
            },
            storage: Storage {
                project_state_root: Some("ProjectState".to_string()),
                flake_root: Some("/data/can/canix".to_string()),
                ..Default::default()
            },
            ..Default::default()
        },
    );

    let report = validate(&topology);
    for code in [
        "host.invalid_gpu_media_vendor",
        "host.invalid_gpu_media_render_node",
        "host.empty_gpu_media_driver",
        "host.relative_storage_path",
    ] {
        assert!(
            has_code(&report, code),
            "missing validation issue {code}: {:?}",
            report.issues
        );
    }
}

fn peer(public_key: &str, endpoint: &str, allowed_ips: Vec<String>) -> WireGuardPeer {
    WireGuardPeer {
        public_key: public_key.to_string(),
        endpoint: endpoint.to_string(),
        allowed_ips,
        persistent_keepalive_seconds: None,
        dynamic_endpoint_refresh_seconds: None,
        dynamic_endpoint_refresh_restart_seconds: None,
    }
}

#[test]
fn validates_host_local_vpn_profiles() {
    let mut users = IndexMap::new();
    users.insert(
        "alice".to_string(),
        User {
            has_account: true,
            ..Default::default()
        },
    );
    let mut profiles = IndexMap::new();
    profiles.insert(
        "empty".to_string(),
        VpnProfile {
            provider: " ".to_string(),
            owner: Some("missing".to_string()),
            dns_servers: vec!["not-an-ip".to_string()],
            connection: VpnConnection::WireGuard(WireGuardVpnConnection {
                addresses: vec!["not-a-cidr".to_string()],
                private_key_ref: String::new(),
                peers: vec![
                    peer("", " ", vec!["not-a-cidr".to_string()]),
                    peer("peer-public-key", "vpn.example.test:51820", vec![]),
                ],
            }),
            port_forwarding: Some(VpnPortForwarding::NatPmp(NatPmpPortForwarding {
                gateway: "not-an-ip".to_string(),
            })),
        },
    );
    profiles.insert(
        "missing-network-data".to_string(),
        VpnProfile {
            provider: "Example VPN".to_string(),
            owner: None,
            dns_servers: vec![],
            connection: VpnConnection::WireGuard(WireGuardVpnConnection {
                addresses: vec!["198.51.100.2/32".to_string()],
                private_key_ref: "vpn/example/private-key".to_string(),
                peers: vec![],
            }),
            port_forwarding: None,
        },
    );
    let mut topology = v2_topology();
    topology.hosts.insert(
        "edge".to_string(),
        Host {
            system: "x86_64-linux".to_string(),
            users,
            vpn_profiles: profiles,
            ..Default::default()
        },
    );
    topology.hosts.insert(
        "empty-profiles".to_string(),
        Host {
            system: "x86_64-linux".to_string(),
            ..Default::default()
        },
    );

    let report = validate(&topology);
    for code in [
        "vpn.empty_provider",
        "vpn.unknown_owner",
        "vpn.invalid_dns_server",
        "vpn.empty_dns_servers",
        "vpn.invalid_address",
        "vpn.empty_private_key_ref",
        "vpn.empty_peers",
        "vpn.empty_peer_field",
        "vpn.empty_allowed_ips",
        "vpn.invalid_allowed_ip",
        "vpn.invalid_port_forwarding_gateway",
        "vpn.non_ip_peer_endpoint",
    ] {
        assert!(
            has_code(&report, code),
            "missing validation issue {code}: {:?}",
            report.issues
        );
    }
    assert!(topology.hosts["empty-profiles"].vpn_profiles.is_empty());
}

fn single_profile_report(endpoint: &str, gateway: &str) -> ValidationReport {
    let mut profiles = IndexMap::new();
    profiles.insert(
        "home".to_string(),
        VpnProfile {
            provider: "Example VPN".to_string(),
            owner: None,
            dns_servers: vec!["192.0.2.53".to_string()],
            connection: VpnConnection::WireGuard(WireGuardVpnConnection {
                addresses: vec!["198.51.100.2/32".to_string()],
                private_key_ref: "vpn/home/private-key".to_string(),
                peers: vec![peer("peer-key", endpoint, vec!["0.0.0.0/0".to_string()])],
            }),
            port_forwarding: Some(VpnPortForwarding::NatPmp(NatPmpPortForwarding {
                gateway: gateway.to_string(),
            })),
        },
    );
    let mut topology = v2_topology();
    topology.hosts.insert(
        "edge".to_string(),
        Host {
            system: "x86_64-linux".to_string(),
            vpn_profiles: profiles,
            ..Default::default()
        },
    );
    validate(&topology)
}

#[test]
fn vpn_profile_with_ip_endpoint_and_ipv4_gateway_is_valid() {
    assert!(single_profile_report("192.0.2.2:51820", "10.2.0.1").is_ok());
    assert!(single_profile_report("[2001:db8::2]:51820", "10.2.0.1").is_ok());
}

#[test]
fn dns_peer_endpoints_are_rejected() {
    for endpoint in [
        "vpn.example.test:51820",
        "192.0.2.2",
        "192.0.2.2:70000",
        "2001:db8::2:51820",
        "[192.0.2.2]:51820",
        "[2001:db8::2]51820",
    ] {
        let report = single_profile_report(endpoint, "10.2.0.1");
        assert_eq!(report.issues.len(), 1, "{endpoint}: {:?}", report.issues);
        let issue = &report.issues[0];
        assert_eq!(issue.code, "vpn.non_ip_peer_endpoint");
        assert_eq!(issue.severity, ValidationSeverity::Error);
        assert_eq!(
            issue.path.as_deref(),
            Some("hosts.edge.vpnProfiles.home.connection.peers.0.endpoint")
        );
        assert_eq!(issue.value.as_deref(), Some(endpoint));
        assert_eq!(
            issue.message,
            format!(
                "VPN profile 'home' peer endpoint '{endpoint}' must be an IP address with a port (address:port or [address]:port)"
            )
        );
    }
}

#[test]
fn non_ipv4_nat_pmp_gateways_are_rejected() {
    for gateway in ["2001:db8::1", "gateway.example.test"] {
        let report = single_profile_report("192.0.2.2:51820", gateway);
        assert_eq!(report.issues.len(), 1, "{gateway}: {:?}", report.issues);
        let issue = &report.issues[0];
        assert_eq!(issue.code, "vpn.invalid_port_forwarding_gateway");
        assert_eq!(
            issue.path.as_deref(),
            Some("hosts.edge.vpnProfiles.home.portForwarding.gateway")
        );
        assert_eq!(
            issue.message,
            format!(
                "VPN profile 'home' has invalid port-forwarding gateway '{gateway}' (NAT-PMP needs an IPv4 address)"
            )
        );
    }
}

#[test]
fn rejects_absent_and_old_schema_versions() {
    let absent = Topology::default();
    assert_eq!(absent.schema_version, 0);
    assert!(has_code(&validate(&absent), "topology.unsupported_schema_version"));

    let mut old = v2_topology();
    old.schema_version = 1;
    assert!(!validate(&old).is_ok());
    assert!(validate(&v2_topology()).is_ok());
}

#[test]
fn schema_issue_comes_first_with_its_value_and_message() {
    let mut old = v2_topology();
    old.schema_version = 17;
    let report = validate(&old);
    let issue = &report.issues[0];
    assert_eq!(issue.severity, ValidationSeverity::Error);
    assert_eq!(issue.code, "topology.unsupported_schema_version");
    assert_eq!(issue.path.as_deref(), Some("schemaVersion"));
    assert_eq!(issue.value.as_deref(), Some("17"));
    assert_eq!(issue.message, "topology schemaVersion must be 2, got 17");
    assert_eq!(report.issues.len(), 1);
    assert_eq!(report.errors().len(), 1);
    assert!(report.warnings().is_empty());
}

fn link_topology() -> Topology {
    let mut topology = v2_topology();
    topology.links.insert(
        "wg".to_string(),
        Link {
            subnet: "10.0.0.0/24".to_string(),
            port: 51820,
            endpoint_subdomain: None,
            exempt_from_proxy: false,
        },
    );
    topology
}

fn with_binding(topology: &mut Topology, host: &str, link: &str, address: &str, role: LinkRole, key: Option<&str>) {
    let entry = topology.hosts.entry(host.to_string()).or_insert_with(|| Host {
        system: "x86_64-linux".to_string(),
        ..Default::default()
    });
    entry.links.insert(
        link.to_string(),
        LinkBinding {
            address: address.to_string(),
            public_key: key.map(str::to_string),
            role,
            external_interface: None,
            mac_address: None,
        },
    );
}

#[test]
fn link_without_server_is_only_a_warning() {
    let mut topology = link_topology();
    with_binding(&mut topology, "a", "wg", "10.0.0.1", LinkRole::Peer, Some("ka"));
    let report = validate(&topology);
    assert!(report.is_ok());
    let warnings = report.warnings();
    assert_eq!(warnings.len(), 1);
    assert_eq!(warnings[0].code, "link.no_server");
    assert_eq!(
        warnings[0].message,
        "link 'wg' has no server \u{2014} this is fine for peer-to-peer links"
    );
}

#[test]
fn link_servers_addresses_and_keys_are_checked() {
    let mut topology = link_topology();
    with_binding(&mut topology, "a", "wg", "10.0.0.1", LinkRole::Server, None);
    with_binding(&mut topology, "b", "wg", "10.0.0.1", LinkRole::Server, Some("kb"));
    with_binding(&mut topology, "c", "wg", "10.0.1.5", LinkRole::Client, None);
    with_binding(&mut topology, "d", "wg", "bogus", LinkRole::Client, Some("kd"));
    let report = validate(&topology);
    assert!(!report.is_ok());
    let multiple = report
        .issues
        .iter()
        .find(|issue| issue.code == "link.multiple_servers")
        .unwrap();
    assert_eq!(multiple.value.as_deref(), Some("2"));
    assert_eq!(multiple.message, "link 'wg' has 2 servers \u{2014} at most 1 allowed");
    let duplicate = report
        .issues
        .iter()
        .find(|issue| issue.code == "link.duplicate_address")
        .unwrap();
    assert_eq!(duplicate.path.as_deref(), Some("hosts.b.links.wg.address"));
    assert_eq!(
        duplicate.message,
        "link 'wg' has duplicate address '10.0.0.1' (host 'b')"
    );
    let outside = report
        .issues
        .iter()
        .find(|issue| issue.code == "link.address_outside_subnet")
        .unwrap();
    assert_eq!(
        outside.message,
        "host 'c' address '10.0.1.5' is outside link 'wg' subnet '10.0.0.0/24'"
    );
    assert!(has_code(&report, "link.invalid_address"));
    assert!(has_code(&report, "link.server_missing_public_key"));
    let client = report
        .issues
        .iter()
        .find(|issue| issue.code == "link.client_missing_public_key")
        .unwrap();
    assert_eq!(client.severity, ValidationSeverity::Warning);
    assert_eq!(client.path.as_deref(), Some("hosts.c.links.wg.publicKey"));
}

#[test]
fn link_port_subnet_and_undeclared_bindings() {
    let mut topology = v2_topology();
    topology.links.insert(
        "bad".to_string(),
        Link {
            subnet: "10.0.0.0/33".to_string(),
            port: 0,
            endpoint_subdomain: None,
            exempt_from_proxy: false,
        },
    );
    with_binding(&mut topology, "a", "ghost", "10.0.0.1", LinkRole::Client, None);
    topology.hosts.get_mut("a").unwrap().network.direct_link_peers = vec!["nobody".to_string()];
    topology.hosts.get_mut("a").unwrap().rebuild.build_host = Some("builder".to_string());
    let report = validate(&topology);
    let codes: Vec<&str> = report.issues.iter().map(|i| i.code.as_str()).collect();
    assert!(codes.contains(&"link.invalid_port"));
    assert!(codes.contains(&"link.invalid_subnet"));
    assert!(codes.contains(&"host.undeclared_link"));
    assert!(codes.contains(&"host.invalid_direct_peer"));
    let build = report
        .issues
        .iter()
        .find(|issue| issue.code == "host.invalid_build_host")
        .unwrap();
    assert_eq!(
        build.message,
        "host 'a' has rebuild.buildHost 'builder' which does not exist in hosts"
    );
}

#[test]
fn redirects_need_hostname_target_and_redirect_status() {
    let mut topology = v2_topology();
    topology.domains.redirects = vec![Redirect {
        from: "-bad-".to_string(),
        to: "  ".to_string(),
        status: 200,
        preserve_path: false,
    }];
    let report = validate(&topology);
    assert!(has_code(&report, "redirect.invalid_source"));
    assert!(has_code(&report, "redirect.invalid_target"));
    let status = report
        .issues
        .iter()
        .find(|issue| issue.code == "redirect.invalid_status")
        .unwrap();
    assert_eq!(status.value.as_deref(), Some("200"));
    assert_eq!(
        status.message,
        "redirect '-bad-' has invalid status 200 (expected 300..=399)"
    );
}

#[test]
fn dynamic_host_zones_must_match_and_be_declared() {
    let mut topology = v2_topology();
    topology.domains.zones = vec!["example.test".to_string()];
    topology.domains.dynamic_hosts = vec![DynamicHost {
        fqdn: "api.example.test".to_string(),
        proxied: false,
        zone: Some("other.test".to_string()),
    }];
    let report = validate(&topology);
    assert!(has_code(&report, "dns.dynamic_host_zone_mismatch"));
    assert!(has_code(&report, "dns.dynamic_host_undeclared_zone"));
}

#[test]
fn load_outcome_lists_the_errors() {
    let mut old = v2_topology();
    old.schema_version = 3;
    let report = validate(&old);
    assert_eq!(
        load_outcome(&report),
        Err("invalid topology:\ntopology.unsupported_schema_version: topology schemaVersion must be 2, got 3".to_string())
    );
    assert_eq!(load_outcome(&validate(&v2_topology())), Ok(()));
}
