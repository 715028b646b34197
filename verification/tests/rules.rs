use fleetix::topology::{
    DnsPublication, DynamicHost, Endpoint, EndpointBind, EndpointTransport, HealthIntent, Host,
    HttpAccess, HttpAction, HttpMatch, HttpRoute, HttpSite, IngressGroup, IngressScope, PagesSite,
    ServiceIntent, Topology, VpnConnection, VpnProfile, WireGuardVpnConnection,
};
use fleetix::net::{address_in_subnet, parse_cidr, IpValue};
use fleetix::validate::{validate, ValidationReport};
use indexmap::IndexMap;

fn codes(report: &ValidationReport) -> Vec<String> {
    report.issues.iter().map(|issue| issue.code.clone()).collect()
}

fn assert_codes(report: &ValidationReport, expected: &[&str]) {
    let found = codes(report);
    for code in expected {
        assert!(found.iter().any(|c| c == code), "missing {code}: {found:?}");
    }
}

fn host(system: &str) -> Host {
    Host {
        system: system.to_string(),
        ..Default::default()
    }
}

fn route(action: HttpAction) -> HttpRoute {
    HttpRoute {
        matcher: HttpMatch::default(),
        action,
        auth_policy: None,
        response_headers: IndexMap::new(),
    }
}

#[test]
fn identifier_and_domain_rules() {
    let mut topology = Topology {
        schema_version: 2,
        ..Default::default()
    };
    let mut odd = host("");
    odd.host_names = vec!["-x-".to_string(), "alias".to_string(), "alias".to_string()];
    odd.availability_class = "sometimes".to_string();
    topology.hosts.insert("bad.name".to_string(), odd);
    topology.domains.zones = vec![
        "bad_zone!".to_string(),
        "example.test".to_string(),
        "example.test".to_string(),
    ];
    topology.domains.managed_zones = vec!["other.test".to_string()];
    topology.domains.dynamic_hosts = vec![
        DynamicHost {
            fqdn: "-x".to_string(),
            proxied: false,
            zone: None,
        },
        DynamicHost {
            fqdn: "-x".to_string(),
            proxied: false,
            zone: None,
        },
    ];
    topology.domains.pages_sites = vec![PagesSite {
        subdomain: "-".to_string(),
        repository: "norepo".to_string(),
        cname_target: "-".to_string(),
    }];
    let report = validate(&topology);
    assert_codes(
        &report,
        &[
            "host.invalid_name",
            "host.invalid_system",
            "host.invalid_alias",
            "host.duplicate_alias",
            "host.invalid_availability_class",
            "dns.invalid_zone",
            "dns.duplicate_zone",
            "dns.managed_zone_undeclared",
            "dns.duplicate_dynamic_host",
            "dns.invalid_hostname",
            "pages.invalid_subdomain",
            "pages.invalid_cname_target",
            "pages.invalid_repository",
        ],
    );
}

#[test]
fn deployment_rules() {
    let mut topology = Topology {
        schema_version: 2,
        ..Default::default()
    };
    topology.hosts.insert("atlas".to_string(), host("x86_64-linux"));
    topology.deployment.service_intents = vec![
        ServiceIntent {
            name: String::new(),
            ..Default::default()
        },
        ServiceIntent {
            name: "twice".to_string(),
            service_name: Some("ghost".to_string()),
            required_availability: Some("sometimes".to_string()),
            depends_on: vec!["nope".to_string()],
            health: HealthIntent {
                required: true,
                endpoint: None,
            },
            ..Default::default()
        },
        ServiceIntent {
            name: "twice".to_string(),
            ..Default::default()
        },
        ServiceIntent {
            name: "loop".to_string(),
            depends_on: vec!["loop".to_string()],
            ..Default::default()
        },
    ];
    topology.deployment.ingress_groups.insert(
        "empty".to_string(),
        IngressGroup {
            scope: IngressScope::Public,
            hosts: vec![],
        },
    );
    topology.deployment.ingress_groups.insert(
        "ghosts".to_string(),
        IngressGroup {
            scope: IngressScope::Public,
            hosts: vec!["ghost".to_string()],
        },
    );
    let report = validate(&topology);
    assert_codes(
        &report,
        &[
            "deployment.empty_intent_name",
            "deployment.duplicate_intent",
            "deployment.unknown_service",
            "deployment.invalid_required_availability",
            "deployment.health_endpoint_required",
            "deployment.self_dependency",
            "deployment.unknown_dependency",
            "ingress.empty_hosts",
            "ingress.unknown_host",
        ],
    );
}

fn endpoint(target: &str, port: u16, transport: EndpointTransport, bind: EndpointBind) -> Endpoint {
    Endpoint {
        target_host: target.to_string(),
        port,
        transport,
        bind,
        remote_via: None,
        tls_server_name: None,
        tcp_probe: true,
    }
}

fn site(hostname: &str, ingress: &str, access: HttpAccess, dns: DnsPublication, routes: Vec<HttpRoute>) -> HttpSite {
    HttpSite {
        hostname: hostname.to_string(),
        ingress: ingress.to_string(),
        access,
        dns_publication: dns,
        routes,
    }
}

#[test]
fn service_and_site_rules() {
    let mut topology = Topology {
        schema_version: 2,
        ..Default::default()
    };
    topology.domains.zones = vec!["example.test".to_string()];
    topology.hosts.insert("atlas".to_string(), host("x86_64-linux"));
    topology.deployment.ingress_groups.insert(
        "public".to_string(),
        IngressGroup {
            scope: IngressScope::Public,
            hosts: vec!["atlas".to_string()],
        },
    );
    let mut sni = endpoint("atlas", 0, EndpointTransport::Http, EndpointBind::Lan);
    sni.tls_server_name = Some("x.example.test".to_string());
    sni.remote_via = Some("sni".to_string());
    topology.services.endpoints.insert("sni".to_string(), sni);
    topology.services.endpoints.insert(
        "stray".to_string(),
        endpoint("ghost", 80, EndpointTransport::Http, EndpointBind::Lan),
    );
    topology.services.endpoints.insert(
        "raw".to_string(),
        endpoint("atlas", 22, EndpointTransport::Tcp, EndpointBind::Lan),
    );
    let mut auth = route(HttpAction::Proxy {
        endpoint: "raw".to_string(),
        strip_prefix: None,
    });
    auth.auth_policy = Some(String::new());
    auth.response_headers.insert(" ".to_string(), vec!["v".to_string()]);
    let routes = vec![
        auth,
        route(HttpAction::Redirect {
            to: String::new(),
            status: 200,
            preserve_uri: true,
        }),
        route(HttpAction::Files {
            root_ref: String::new(),
            index_names: vec![],
        }),
    ];
    topology.services.http_sites.insert(
        "one".to_string(),
        site("-bad", "nowhere", HttpAccess::Direct, DnsPublication::Unpublished, vec![]),
    );
    topology.services.http_sites.insert(
        "two".to_string(),
        site("app.other.test", "public", HttpAccess::Vpn, DnsPublication::Managed, routes),
    );
    topology.services.http_sites.insert(
        "three".to_string(),
        site("app.other.test", "public", HttpAccess::Direct, DnsPublication::Unpublished, vec![route(
            HttpAction::Respond {
                status: 404,
                body: None,
            },
        )]),
    );
    let report = validate(&topology);
    assert_codes(
        &report,
        &[
            "endpoint.invalid_port",
            "endpoint.sni_without_https",
            "endpoint.remote_via_self",
            "endpoint.unknown_target_host",
            "site.invalid_hostname",
            "site.unknown_ingress",
            "site.routes_empty",
            "site.duplicate_hostname",
            "site.managed_hostname_outside_zone",
            "site.ingress_scope_mismatch",
            "site.vpn_managed_dns",
            "site.route_empty_auth_policy",
            "site.route_empty_response_header",
            "site.route_non_http_endpoint",
            "site.route_empty_redirect",
            "site.route_invalid_redirect_status",
            "site.route_empty_root_ref",
            "site.route_fallback_count",
        ],
    );
}

#[test]
fn wireguard_profiles_need_addresses() {
    let mut topology = Topology {
        schema_version: 2,
        ..Default::default()
    };
    let mut edge = host("x86_64-linux");
    edge.vpn_profiles.insert(
        "p".to_string(),
        VpnProfile {
            provider: "Example".to_string(),
            owner: None,
            dns_servers: vec![],
            connection: VpnConnection::WireGuard(WireGuardVpnConnection {
                addresses: vec![],
                private_key_ref: "ref".to_string(),
                peers: vec![],
            }),
            port_forwarding: None,
        },
    );
    topology.hosts.insert("edge".to_string(), edge);
    assert_codes(&validate(&topology), &["vpn.empty_addresses"]);
}

#[test]
fn subnet_membership_needs_one_family() {
    let (v4_net, v4_prefix) = parse_cidr("10.0.0.0/24").unwrap();
    let (v6_net, v6_prefix) = parse_cidr("fd00::/64").unwrap();
    assert_eq!(v4_net, IpValue::V4(0x0a00_0000));
    assert!(address_in_subnet(IpValue::V4(0x0a00_0005), v4_net, v4_prefix));
    assert!(!address_in_subnet(IpValue::V4(0x0a00_0105), v4_net, v4_prefix));
    assert!(address_in_subnet(IpValue::V6(0xfd00_u128 << 112 | 7), v6_net, v6_prefix));
    assert!(!address_in_subnet(IpValue::V6(7), v4_net, 120));
    assert!(!address_in_subnet(IpValue::V4(7), v6_net, 64));
}
