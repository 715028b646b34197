//! The fleet topology data model: links, hosts, domains, services,
//! deployment and trust, as a consuming flake declares them.
use indexmap::IndexMap;
use vstd::prelude::*;

verus! {

#[derive(Debug, Default, Clone)]
pub struct Topology {
    pub schema_version: u16,
    pub links: IndexMap<String, Link>,
    pub hosts: IndexMap<String, Host>,
    pub domains: Domains,
    pub services: Services,
    pub deployment: Deployment,
    pub trust: Trust,
}

#[derive(Debug, Default, Clone)]
pub struct Link {
    pub subnet: String,
    pub port: u16,
    pub endpoint_subdomain: Option<String>,
    pub exempt_from_proxy: bool,
}

#[derive(Debug, Clone)]
pub struct LinkBinding {
    pub address: String,
    pub public_key: Option<String>,
    pub role: LinkRole,
    pub external_interface: Option<String>,
    pub mac_address: Option<String>,
}

/// The role a binding takes when none is declared.
pub fn default_link_role() -> (r: LinkRole)
    ensures
        r == LinkRole::Client,
{
    LinkRole::Client
}

#[derive(Debug, Clone, Copy, PartialEq, Eq, Structural)]
pub enum LinkRole {
    Server,
    Client,
    Peer,
}

#[derive(Debug, Default, Clone)]
pub struct Host {
    pub system: String,
    pub device_type: Option<DeviceType>,
    pub availability_class: String,
    pub host_pubkey: Option<String>,
    pub host_names: Vec<String>,
    pub network: Network,
    pub rebuild: Rebuild,
    pub links: IndexMap<String, LinkBinding>,
    pub users: IndexMap<String, User>,
    pub vpn_profiles: IndexMap<String, VpnProfile>,
    pub gpu: Gpu,
    pub storage: Storage,
}

/// The availability class a host has when none is declared.
pub fn default_availability_class() -> (r: String)
    ensures
        r@ == "unknown"@,
{
    String::from_str("unknown")
}

#[derive(Debug, Clone, Copy, PartialEq, Eq, Structural)]
pub enum DeviceType {
    Server,
    Desktop,
    Laptop,
}

#[derive(Debug, Default, Clone)]
pub struct Network {
    pub lan_ip: Option<String>,
    pub lan_broadcast: Option<String>,
    pub mac_address: Option<String>,
    pub lan_interface: Option<String>,
    pub direct_link_ip: Option<String>,
    pub direct_link_mac: Option<String>,
    pub direct_link_interface: Option<String>,
    pub direct_link_peers: Vec<String>,
    pub wake_on_lan_interface: Option<String>,
}

#[derive(Debug, Default, Clone)]
pub struct Rebuild {
    pub build_host: Option<String>,
    pub use_substitutes: bool,
    pub build_cache: BuildCache,
}

#[derive(Debug, Default, Clone)]
pub struct BuildCache {
    pub enable: bool,
    pub package_attr_names: Vec<String>,
    pub key_prefix: Option<String>,
}

#[derive(Debug, Default, Clone)]
pub struct User {
    pub has_account: bool,
    pub personal_pc: bool,
    pub gpg: Option<String>,
    pub signing_key: Option<String>,
}

#[derive(Debug, Clone)]
pub struct VpnProfile {
    pub provider: String,
    pub owner: Option<String>,
    pub dns_servers: Vec<String>,
    pub connection: VpnConnection,
    pub port_forwarding: Option<VpnPortForwarding>,
}

#[derive(Debug, Clone)]
pub enum VpnConnection {
    WireGuard(WireGuardVpnConnection),
}

#[derive(Debug, Clone)]
pub struct WireGuardVpnConnection {
    pub addresses: Vec<String>,
    pub private_key_ref: String,
    pub peers: Vec<WireGuardPeer>,
}

#[derive(Debug, Clone)]
pub struct WireGuardPeer {
    pub public_key: String,
    pub endpoint: String,
    pub allowed_ips: Vec<String>,
    pub persistent_keepalive_seconds: Option<u16>,
    pub dynamic_endpoint_refresh_seconds: Option<u16>,
    pub dynamic_endpoint_refresh_restart_seconds: Option<u16>,
}

#[derive(Debug, Clone)]
pub enum VpnPortForwarding {
    NatPmp(NatPmpPortForwarding),
}

#[derive(Debug, Clone)]
pub struct NatPmpPortForwarding {
    pub gateway: String,
}

#[derive(Debug, Default, Clone)]
pub struct Gpu {
    pub igpu: Option<String>,
    pub dgpu: Option<String>,
    pub media: Option<GpuMedia>,
}

#[derive(Debug, Default, Clone)]
pub struct GpuMedia {
    pub vendor: String,
    pub render_node: String,
    pub libva_driver: String,
}

#[derive(Debug, Default, Clone)]
pub struct Storage {
    pub data_root: Option<String>,
    pub project_state_root: Option<String>,
    pub flake_root: Option<String>,
}

#[derive(Debug, Default, Clone)]
pub struct Domains {
    pub zones: Vec<String>,
    pub mail_subdomain: Option<String>,
    pub vpn_subdomain: Option<String>,
    pub managed_zones: Vec<String>,
    pub dynamic_hosts: Vec<DynamicHost>,
    pub dns_zones: Vec<DnsZone>,
    pub pages_sites: Vec<PagesSite>,
    pub redirects: Vec<Redirect>,
}

#[derive(Debug, Clone)]
pub struct DynamicHost {
    pub fqdn: String,
    pub proxied: bool,
    pub zone: Option<String>,
}

#[derive(Debug, Clone)]
pub struct DnsRecord {
    pub name: String,
    pub record_type: String,
    pub data: Option<String>,
    pub secret: Option<String>,
    pub preference: Option<i64>,
    pub proxied: bool,
    pub ttl_auto: bool,
    pub comment: Option<String>,
}

#[derive(Debug, Clone)]
pub struct DnsExclude {
    pub name: String,
    pub record_type: String,
}

#[derive(Debug, Clone)]
pub struct DnsZone {
    pub name: String,
    pub default_ttl: i64,
    pub mode: String,
    pub records: Vec<DnsRecord>,
    pub exclude: Vec<DnsExclude>,
}

/// Records follow `ttl = auto` unless they say otherwise.
pub fn default_true() -> (r: bool)
    ensures
        r,
{
    true
}

/// The TTL of a DNS zone that declares none.
pub fn default_dns_ttl() -> (r: i64)
    ensures
        r == 300,
{
    300
}

/// The mode of a DNS zone that declares none.
pub fn default_dns_mode() -> (r: String)
    ensures
        r@ == "lenient"@,
{
    String::from_str("lenient")
}

#[derive(Debug, Clone)]
pub struct PagesSite {
    pub subdomain: String,
    pub repository: String,
    pub cname_target: String,
}

#[derive(Debug, Clone)]
pub struct Redirect {
    pub from: String,
    pub to: String,
    pub status: u16,
    pub preserve_path: bool,
}

/// The status of a redirect that declares none (moved permanently).
pub fn default_redirect_status() -> (r: u16)
    ensures
        r == 301,
{
    301
}

/// Redirects keep the request path unless they say otherwise.
pub fn default_redirect_preserve_path() -> (r: bool)
    ensures
        r,
{
    true
}

#[derive(Debug, Default, Clone)]
pub struct Services {
    pub endpoints: IndexMap<String, Endpoint>,
    pub http_sites: IndexMap<String, HttpSite>,
}

#[derive(Debug, Clone)]
pub struct Endpoint {
    pub target_host: String,
    pub port: u16,
    pub transport: EndpointTransport,
    pub bind: EndpointBind,
    pub remote_via: Option<String>,
    pub tls_server_name: Option<String>,
    pub tcp_probe: bool,
}

#[derive(Debug, Clone, Copy, PartialEq, Eq, Structural)]
pub enum EndpointTransport {
    Tcp,
    Http,
    Https,
    H2c,
}

/// HTTP-capable transports: everything but raw TCP.
pub open spec fn transport_is_http(t: EndpointTransport) -> bool {
    t != EndpointTransport::Tcp
}

impl EndpointTransport {
    pub fn is_http(self) -> (r: bool)
        ensures
            r == transport_is_http(self),
            r == (self is Http || self is Https || self is H2c),
    {
        match self {
            EndpointTransport::Tcp => false,
            _ => true,
        }
    }
}

#[derive(Debug, Clone, Copy, PartialEq, Eq, Structural)]
pub enum EndpointBind {
    Loopback,
    Lan,
    Vpn,
}

#[derive(Debug, Clone)]
pub struct HttpSite {
    pub hostname: String,
    pub ingress: String,
    pub access: HttpAccess,
    pub dns_publication: DnsPublication,
    pub routes: Vec<HttpRoute>,
}

#[derive(Debug, Clone, Copy, PartialEq, Eq, Structural)]
pub enum HttpAccess {
    Cloudflare,
    Direct,
    Vpn,
}

#[derive(Debug, Clone, Copy, PartialEq, Eq, Structural)]
pub enum DnsPublication {
    Managed,
    External,
    /// Not published in DNS (`"none"` in the topology source).
    Unpublished,
}

#[derive(Debug, Clone)]
pub struct HttpRoute {
    pub matcher: HttpMatch,
    pub action: HttpAction,
    pub auth_policy: Option<String>,
    pub response_headers: IndexMap<String, Vec<String>>,
}

#[derive(Debug, Default, Clone)]
pub struct HttpMatch {
    pub paths: Vec<PathMatch>,
    pub absent_query_params: Vec<String>,
}

#[derive(Debug, Clone)]
pub enum PathMatch {
    Exact { value: String },
    Prefix { value: String },
}

/// The path a matcher compares against, whatever its kind.
pub open spec fn path_match_value(m: PathMatch) -> Seq<char> {
    match m {
        PathMatch::Exact { value } => value@,
        PathMatch::Prefix { value } => value@,
    }
}

impl PathMatch {
    pub fn value(&self) -> (r: &str)
        ensures
            r@ == path_match_value(*self),
    {
        match self {
            PathMatch::Exact { value } => value.as_str(),
            PathMatch::Prefix { value } => value.as_str(),
        }
    }
}

#[derive(Debug, Clone)]
pub enum HttpAction {
    Proxy { endpoint: String, strip_prefix: Option<String> },
    Files { root_ref: String, index_names: Vec<String> },
    Redirect { to: String, status: u16, preserve_uri: bool },
    Respond { status: u16, body: Option<String> },
}

/// The index files a files route serves when it names none.
pub fn default_index_names() -> (r: Vec<String>)
    ensures
        r@.len() == 1,
        r@[0]@ == "index.html"@,
{
    let mut v = Vec::new();
    v.push(String::from_str("index.html"));
    v
}

#[derive(Debug, Default, Clone)]
pub struct HealthIntent {
    pub required: bool,
    pub endpoint: Option<String>,
}

#[derive(Debug, Default, Clone)]
pub struct ServiceIntent {
    pub name: String,
    pub service_name: Option<String>,
    pub required_hosts: Vec<String>,
    pub preferred_hosts: Vec<String>,
    pub required_availability: Option<String>,
    pub depends_on: Vec<String>,
    pub health: HealthIntent,
}

#[derive(Debug, Default, Clone)]
pub struct Deployment {
    pub service_intents: Vec<ServiceIntent>,
    pub ingress_groups: IndexMap<String, IngressGroup>,
    pub local_access: IndexMap<String, LocalAccessPolicy>,
}

#[derive(Debug, Default, Clone)]
pub struct LocalAccessPolicy {
    pub clients: Vec<String>,
    pub target_host: String,
    pub preferred_link: String,
    pub fallback_link: String,
    pub destination: Option<String>,
    pub tcp_ports: Vec<u16>,
    pub udp_ports: Vec<u16>,
}

/// The link a local-access policy prefers when it names none.
pub fn default_local_access_preferred_link() -> (r: String)
    ensures
        r@ == "lan"@,
{
    String::from_str("lan")
}

/// The link a local-access policy falls back to when it names none.
pub fn default_local_access_fallback_link() -> (r: String)
    ensures
        r@ == "wg-home"@,
{
    String::from_str("wg-home")
}

#[derive(Debug, Clone)]
pub struct IngressGroup {
    pub scope: IngressScope,
    pub hosts: Vec<String>,
}

#[derive(Debug, Clone, Copy, PartialEq, Eq, Structural)]
pub enum IngressScope {
    Public,
    Vpn,
}

#[derive(Debug, Default, Clone)]
pub struct Trust {
    pub ssh_known_hosts: Vec<SshKnownHost>,
}

#[derive(Debug, Clone)]
pub struct SshKnownHost {
    pub host_names: Vec<String>,
    pub public_keys: Vec<String>,
    pub provenance: Option<String>,
}

} // verus!
