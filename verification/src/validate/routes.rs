//! The ordered routes of an HTTP site: unique match signatures, absolute
//! paths, non-empty names, resolvable and reachable proxy targets, valid
//! statuses, and exactly one fallback route, placed last.
use super::{
    concat_map, err, issues_view, lemma_concat_map_all, lemma_concat_map_step, raise_if, IssueView,
    ValidationReport,
};
use crate::maps::{endpoint_entries, endpoint_map_get, header_entries, header_map_get_index, header_map_len, keys_of, lookup};
use crate::strs::{copy, dec, dec16, s2, s3, s4, s5, s7, str_views};
use crate::text::{decimal, is_blank, is_blank_str, starts_with, str_eq, str_starts_with};
use crate::topology::{
    transport_is_http, EndpointBind, HttpAction, HttpRoute, IngressGroup, PathMatch, Topology,
    path_match_value,
};
use vstd::prelude::*;

verus! {

/// How often `x` occurs in `s`.
pub open spec fn count_of<A>(s: Seq<A>, x: A) -> nat
    decreases s.len(),
{
    if s.len() == 0 {
        0
    } else {
        count_of(s.drop_last(), x) + if s.last() == x {
            1nat
        } else {
            0nat
        }
    }
}

/// The two sequences hold the same elements the same number of times.
pub open spec fn same_elements<A>(a: Seq<A>, b: Seq<A>) -> bool {
    forall|x: A| count_of(a, x) == count_of(b, x)
}

/// A path matcher as its kind (exact before prefix) and value.
pub open spec fn path_key(m: PathMatch) -> (int, Seq<char>) {
    match m {
        PathMatch::Exact { value } => (0, value@),
        PathMatch::Prefix { value } => (1, value@),
    }
}

pub open spec fn path_keys(ms: Seq<PathMatch>) -> Seq<(int, Seq<char>)> {
    ms.map_values(|m: PathMatch| path_key(m))
}

/// Two routes match the same requests: the same path matchers and the same
/// absent query parameters, in any order.
pub open spec fn same_signature(a: HttpRoute, b: HttpRoute) -> bool {
    same_elements(path_keys(a.matcher.paths@), path_keys(b.matcher.paths@)) && same_elements(
        str_views(a.matcher.absent_query_params@),
        str_views(b.matcher.absent_query_params@),
    )
}

/// A route with no matcher at all catches every request.
pub open spec fn is_fallback(r: HttpRoute) -> bool {
    r.matcher.paths@.len() == 0 && r.matcher.absent_query_params@.len() == 0
}

/// The positions of the fallback routes, in order.
pub open spec fn fallback_indices(routes: Seq<HttpRoute>) -> Seq<int>
    decreases routes.len(),
{
    if routes.len() == 0 {
        Seq::empty()
    } else if is_fallback(routes.last()) {
        fallback_indices(routes.drop_last()).push(routes.len() - 1)
    } else {
        fallback_indices(routes.drop_last())
    }
}

pub open spec fn routes_base(sn: Seq<char>) -> Seq<char> {
    "services.httpSites."@ + sn + ".routes"@
}

pub open spec fn path_matcher_issue(p: Seq<char>, sn: Seq<char>, mi: int, m: PathMatch) -> Seq<IssueView> {
    raise_if(
        !starts_with(path_match_value(m), "/"@),
        err(
            "site.route_path_not_absolute"@,
            Some(p + ".match.paths."@ + decimal(mi as nat) + ".value"@),
            Some(path_match_value(m)),
            "HTTP site '"@ + sn + "' route paths must be absolute"@,
        ),
    )
}

pub open spec fn path_matcher_fn(p: Seq<char>, sn: Seq<char>) -> spec_fn(int, PathMatch) -> Seq<IssueView> {
    |mi: int, m: PathMatch| path_matcher_issue(p, sn, mi, m)
}

pub open spec fn query_issue(p: Seq<char>, sn: Seq<char>, qi: int, q: Seq<char>) -> Seq<IssueView> {
    raise_if(
        is_blank(q),
        err(
            "site.route_empty_absent_query_param"@,
            Some(p + ".match.absentQueryParams."@ + decimal(qi as nat)),
            Some(q),
            "HTTP site '"@ + sn + "' absent query parameters must not be empty"@,
        ),
    )
}

pub open spec fn query_fn(p: Seq<char>, sn: Seq<char>) -> spec_fn(int, Seq<char>) -> Seq<IssueView> {
    |qi: int, q: Seq<char>| query_issue(p, sn, qi, q)
}

pub open spec fn header_issue(p: Seq<char>, sn: Seq<char>, h: Seq<char>) -> Seq<IssueView> {
    raise_if(
        is_blank(h),
        err(
            "site.route_empty_response_header"@,
            Some(p + ".responseHeaders"@),
            Some(h),
            "HTTP site '"@ + sn + "' response header names must not be empty"@,
        ),
    )
}

pub open spec fn header_fn(p: Seq<char>, sn: Seq<char>) -> spec_fn(int, Seq<char>) -> Seq<IssueView> {
    |i: int, h: Seq<char>| header_issue(p, sn, h)
}

pub open spec fn unreachable_issue(
    p: Seq<char>,
    sn: Seq<char>,
    ep: Seq<char>,
    target_host: Seq<char>,
    has_remote: bool,
    ih: Seq<char>,
) -> Seq<IssueView> {
    raise_if(
        ih != target_host && !has_remote,
        err(
            "site.route_unreachable_endpoint"@,
            Some(p + ".action.endpoint"@),
            Some(ep),
            "HTTP site '"@ + sn + "' ingress host '"@ + ih + "' cannot reach loopback endpoint '"@
                + ep + "' without remoteVia"@,
        ),
    )
}

pub open spec fn unreachable_fn(
    p: Seq<char>,
    sn: Seq<char>,
    ep: Seq<char>,
    target_host: Seq<char>,
    has_remote: bool,
) -> spec_fn(int, Seq<char>) -> Seq<IssueView> {
    |i: int, ih: Seq<char>| unreachable_issue(p, sn, ep, target_host, has_remote, ih)
}

pub open spec fn proxy_issues(
    t: Topology,
    sn: Seq<char>,
    ingress: Option<IngressGroup>,
    p: Seq<char>,
    ep: Seq<char>,
    strip_prefix: Option<String>,
) -> Seq<IssueView> {
    (match strip_prefix {
        Some(sp) => raise_if(
            !starts_with(sp@, "/"@),
            err(
                "site.route_strip_prefix_not_absolute"@,
                Some(p + ".action.stripPrefix"@),
                Some(sp@),
                "HTTP site '"@ + sn + "' stripPrefix must be absolute"@,
            ),
        ),
        None => Seq::empty(),
    }) + match lookup(endpoint_entries(t.services.endpoints), ep) {
        Some(target) => raise_if(
            !transport_is_http(target.transport),
            err(
                "site.route_non_http_endpoint"@,
                Some(p + ".action.endpoint"@),
                Some(ep),
                "HTTP site '"@ + sn + "' cannot proxy to TCP endpoint '"@ + ep + "'"@,
            ),
        ) + if target.bind == EndpointBind::Loopback {
            match ingress {
                Some(g) => concat_map(
                    str_views(g.hosts@),
                    unreachable_fn(p, sn, ep, target.target_host@, target.remote_via is Some),
                ),
                None => Seq::empty(),
            }
        } else {
            Seq::empty()
        },
        None => seq![
            err(
                "site.route_unknown_endpoint"@,
                Some(p + ".action.endpoint"@),
                Some(ep),
                "HTTP site '"@ + sn + "' references unknown endpoint '"@ + ep + "'"@,
            ),
        ],
    }
}

pub open spec fn action_issues(
    t: Topology,
    sn: Seq<char>,
    ingress: Option<IngressGroup>,
    p: Seq<char>,
    action: HttpAction,
) -> Seq<IssueView> {
    match action {
        HttpAction::Proxy { endpoint, strip_prefix } => proxy_issues(
            t,
            sn,
            ingress,
            p,
            endpoint@,
            strip_prefix,
        ),
        HttpAction::Files { root_ref, .. } => raise_if(
            is_blank(root_ref@),
            err(
                "site.route_empty_root_ref"@,
                Some(p + ".action.rootRef"@),
                Some(root_ref@),
                "HTTP site '"@ + sn + "' files rootRef must not be empty"@,
            ),
        ),
        HttpAction::Redirect { to, status, .. } => raise_if(
            is_blank(to@),
            err(
                "site.route_empty_redirect"@,
                Some(p + ".action.to"@),
                Some(to@),
                "HTTP site '"@ + sn + "' redirect target must not be empty"@,
            ),
        ) + raise_if(
            !(300 <= status && status <= 399),
            err(
                "site.route_invalid_redirect_status"@,
                Some(p + ".action.status"@),
                Some(decimal(status as nat)),
                "HTTP site '"@ + sn + "' redirect status must be 300..=399"@,
            ),
        ),
        HttpAction::Respond { status, .. } => raise_if(
            !(100 <= status && status <= 599),
            err(
                "site.route_invalid_response_status"@,
                Some(p + ".action.status"@),
                Some(decimal(status as nat)),
                "HTTP site '"@ + sn + "' response status must be 100..=599"@,
            ),
        ),
    }
}

pub open spec fn route_path(sn: Seq<char>, idx: int) -> Seq<char> {
    routes_base(sn) + "."@ + decimal(idx as nat)
}

pub open spec fn route_issues(
    t: Topology,
    sn: Seq<char>,
    ingress: Option<IngressGroup>,
    routes: Seq<HttpRoute>,
    idx: int,
    route: HttpRoute,
) -> Seq<IssueView> {
    let p = route_path(sn, idx);
    raise_if(
        exists|j: int| 0 <= j < idx && same_signature(#[trigger] routes[j], route),
        err(
            "site.route_duplicate_match"@,
            Some(p + ".match"@),
            None,
            "HTTP site '"@ + sn + "' has duplicate route match signatures"@,
        ),
    ) + concat_map(route.matcher.paths@, path_matcher_fn(p, sn)) + concat_map(
        str_views(route.matcher.absent_query_params@),
        query_fn(p, sn),
    ) + match route.auth_policy {
        Some(a) => raise_if(
            is_blank(a@),
            err(
                "site.route_empty_auth_policy"@,
                Some(p + ".authPolicy"@),
                Some(a@),
                "HTTP site '"@ + sn + "' authPolicy must not be empty"@,
            ),
        ),
        None => Seq::empty(),
    } + concat_map(keys_of(header_entries(route.response_headers)), header_fn(p, sn))
        + action_issues(t, sn, ingress, p, route.action)
}

pub open spec fn route_fn(
    t: Topology,
    sn: Seq<char>,
    ingress: Option<IngressGroup>,
    routes: Seq<HttpRoute>,
) -> spec_fn(int, HttpRoute) -> Seq<IssueView> {
    |i: int, r: HttpRoute| route_issues(t, sn, ingress, routes, i, r)
}

pub open spec fn fallback_issue(sn: Seq<char>, routes: Seq<HttpRoute>) -> Seq<IssueView> {
    let f = fallback_indices(routes);
    if f.len() != 1 {
        seq![
            err(
                "site.route_fallback_count"@,
                Some(routes_base(sn)),
                Some(decimal(f.len())),
                "HTTP site '"@ + sn + "' must declare exactly one fallback route"@,
            ),
        ]
    } else if f[0] + 1 != routes.len() {
        seq![
            err(
                "site.route_fallback_not_last"@,
                Some(routes_base(sn) + "."@ + decimal(f[0] as nat)),
                None,
                "HTTP site '"@ + sn + "' fallback route must be last"@,
            ),
        ]
    } else {
        Seq::empty()
    }
}

/// The issues of a site's routes.
pub open spec fn routes_issues(
    t: Topology,
    sn: Seq<char>,
    routes: Seq<HttpRoute>,
    ingress: Option<IngressGroup>,
) -> Seq<IssueView> {
    if routes.len() == 0 {
        seq![
            err(
                "site.routes_empty"@,
                Some(routes_base(sn)),
                None,
                "HTTP site '"@ + sn + "' must declare at least one route"@,
            ),
        ]
    } else {
        concat_map(routes, route_fn(t, sn, ingress, routes)) + fallback_issue(sn, routes)
    }
}

// ---------------------------------------------------------------------------
// Counting
// ---------------------------------------------------------------------------

proof fn lemma_count_pos<A>(s: Seq<A>, x: A)
    ensures
        count_of(s, x) > 0 <==> s.contains(x),
    decreases s.len(),
{
    if s.len() > 0 {
        lemma_count_pos(s.drop_last(), x);
        if s.drop_last().contains(x) {
            let i = choose|i: int| 0 <= i < s.drop_last().len() && s.drop_last()[i] == x;
            assert(s[i] == x);
        }
        if s.contains(x) && s.last() != x {
            let i = choose|i: int| 0 <= i < s.len() && s[i] == x;
            assert(s.drop_last()[i] == x);
        }
    }
}

proof fn lemma_count_step<A>(s: Seq<A>, x: A, i: int)
    requires
        0 <= i < s.len(),
    ensures
        count_of(s.take(i + 1), x) == count_of(s.take(i), x) + if s[i] == x {
            1nat
        } else {
            0nat
        },
{
    assert(s.take(i + 1).drop_last() =~= s.take(i));
}

fn count_path_key(ms: &Vec<PathMatch>, exact: bool, value: &str) -> (r: usize)
    ensures
        r == count_of(path_keys(ms@), (if exact { 0int } else { 1int }, value@)),
{
    let ghost ks = path_keys(ms@);
    let ghost x = (if exact { 0int } else { 1int }, value@);
    let mut c: usize = 0;
    let mut i: usize = 0;
    while i < ms.len()
        invariant
            ks == path_keys(ms@),
            x == (if exact { 0int } else { 1int }, value@),
            0 <= i <= ms@.len(),
            c == count_of(ks.take(i as int), x),
            c <= i,
        decreases ms@.len() - i,
    {
        proof {
            lemma_count_step(ks, x, i as int);
        }
        let hit = match &ms[i] {
            PathMatch::Exact { value: v } => exact && str_eq(v.as_str(), value),
            PathMatch::Prefix { value: v } => !exact && str_eq(v.as_str(), value),
        };
        if hit {
            c += 1;
        }
        i += 1;
    }
    assert(ks.take(ms@.len() as int) =~= ks);
    c
}

fn count_string(v: &Vec<String>, s: &str) -> (r: usize)
    ensures
        r == count_of(str_views(v@), s@),
{
    let ghost ks = str_views(v@);
    let mut c: usize = 0;
    let mut i: usize = 0;
    while i < v.len()
        invariant
            ks == str_views(v@),
            0 <= i <= v@.len(),
            c == count_of(ks.take(i as int), s@),
            c <= i,
        decreases v@.len() - i,
    {
        proof {
            lemma_count_step(ks, s@, i as int);
        }
        if str_eq(v[i].as_str(), s) {
            c += 1;
        }
        i += 1;
    }
    assert(ks.take(v@.len() as int) =~= ks);
    c
}

fn matcher_kind(m: &PathMatch) -> (r: (bool, &str))
    ensures
        path_key(*m) == (if r.0 { 0int } else { 1int }, r.1@),
{
    match m {
        PathMatch::Exact { value } => (true, value.as_str()),
        PathMatch::Prefix { value } => (false, value.as_str()),
    }
}

/// Whether two lists of path matchers hold the same matchers.
fn same_path_keys(a: &Vec<PathMatch>, b: &Vec<PathMatch>) -> (r: bool)
    ensures
        r == same_elements(path_keys(a@), path_keys(b@)),
{
    let ghost ka = path_keys(a@);
    let ghost kb = path_keys(b@);
    let mut i: usize = 0;
    while i < a.len()
        invariant
            ka == path_keys(a@),
            kb == path_keys(b@),
            0 <= i <= a@.len(),
            forall|j: int| 0 <= j < i ==> count_of(ka, #[trigger] ka[j]) == count_of(kb, ka[j]),
        decreases a@.len() - i,
    {
        let (e, v) = matcher_kind(&a[i]);
        if count_path_key(a, e, v) != count_path_key(b, e, v) {
            return false;
        }
        i += 1;
    }
    let mut i: usize = 0;
    while i < b.len()
        invariant
            ka == path_keys(a@),
            kb == path_keys(b@),
            0 <= i <= b@.len(),
            forall|j: int| 0 <= j < a@.len() ==> count_of(ka, #[trigger] ka[j]) == count_of(kb, ka[j]),
            forall|j: int| 0 <= j < i ==> count_of(ka, #[trigger] kb[j]) == count_of(kb, kb[j]),
        decreases b@.len() - i,
    {
        let (e, v) = matcher_kind(&b[i]);
        if count_path_key(a, e, v) != count_path_key(b, e, v) {
            return false;
        }
        i += 1;
    }
    proof {
        assert forall|x: (int, Seq<char>)| count_of(ka, x) == count_of(kb, x) by {
            lemma_count_pos(ka, x);
            lemma_count_pos(kb, x);
            if ka.contains(x) {
                let j = choose|j: int| 0 <= j < ka.len() && ka[j] == x;
                assert(count_of(ka, ka[j]) == count_of(kb, ka[j]));
            } else if kb.contains(x) {
                let j = choose|j: int| 0 <= j < kb.len() && kb[j] == x;
                assert(count_of(ka, kb[j]) == count_of(kb, kb[j]));
            }
        }
    }
    true
}

/// Whether two lists of strings hold the same strings.
fn same_strings(a: &Vec<String>, b: &Vec<String>) -> (r: bool)
    ensures
        r == same_elements(str_views(a@), str_views(b@)),
{
    let ghost ka = str_views(a@);
    let ghost kb = str_views(b@);
    let mut i: usize = 0;
    while i < a.len()
        invariant
            ka == str_views(a@),
            kb == str_views(b@),
            0 <= i <= a@.len(),
            forall|j: int| 0 <= j < i ==> count_of(ka, #[trigger] ka[j]) == count_of(kb, ka[j]),
        decreases a@.len() - i,
    {
        assert(ka[i as int] == a@[i as int]@);
        if count_string(a, a[i].as_str()) != count_string(b, a[i].as_str()) {
            return false;
        }
        i += 1;
    }
    let mut i: usize = 0;
    while i < b.len()
        invariant
            ka == str_views(a@),
            kb == str_views(b@),
            0 <= i <= b@.len(),
            forall|j: int| 0 <= j < a@.len() ==> count_of(ka, #[trigger] ka[j]) == count_of(kb, ka[j]),
            forall|j: int| 0 <= j < i ==> count_of(ka, #[trigger] kb[j]) == count_of(kb, kb[j]),
        decreases b@.len() - i,
    {
        assert(kb[i as int] == b@[i as int]@);
        if count_string(a, b[i].as_str()) != count_string(b, b[i].as_str()) {
            return false;
        }
        i += 1;
    }
    proof {
        assert forall|x: Seq<char>| count_of(ka, x) == count_of(kb, x) by {
            lemma_count_pos(ka, x);
            lemma_count_pos(kb, x);
            if ka.contains(x) {
                let j = choose|j: int| 0 <= j < ka.len() && ka[j] == x;
                assert(count_of(ka, ka[j]) == count_of(kb, ka[j]));
            } else if kb.contains(x) {
                let j = choose|j: int| 0 <= j < kb.len() && kb[j] == x;
                assert(count_of(ka, kb[j]) == count_of(kb, kb[j]));
            }
        }
    }
    true
}

fn same_route_signature(a: &HttpRoute, b: &HttpRoute) -> (r: bool)
    ensures
        r == same_signature(*a, *b),
{
    same_path_keys(&a.matcher.paths, &b.matcher.paths) && same_strings(
        &a.matcher.absent_query_params,
        &b.matcher.absent_query_params,
    )
}

// ---------------------------------------------------------------------------
// Checks
// ---------------------------------------------------------------------------

fn check_proxy(
    topology: &Topology,
    report: &mut ValidationReport,
    sn: &str,
    ingress: Option<&IngressGroup>,
    p: &str,
    ep: &str,
    strip_prefix: &Option<String>,
)
    ensures
        issues_view(final(report).issues@) == issues_view(old(report).issues@) + proxy_issues(
            *topology,
            sn@,
            match ingress {
                Some(g) => Some(*g),
                None => None,
            },
            p@,
            ep@,
            *strip_prefix,
        ),
{
    let ghost start = issues_view(report.issues@);
    if let Some(sp) = strip_prefix {
        if !str_starts_with(sp.as_str(), "/") {
            report.error(
                "site.route_strip_prefix_not_absolute",
                Some(s2(p, ".action.stripPrefix")),
                Some(copy(sp.as_str())),
                s3("HTTP site '", sn, "' stripPrefix must be absolute"),
            );
        }
    }
    let ghost mid = issues_view(report.issues@);
    match endpoint_map_get(&topology.services.endpoints, ep) {
        Some(target) => {
            if !target.transport.is_http() {
                report.error(
                    "site.route_non_http_endpoint",
                    Some(s2(p, ".action.endpoint")),
                    Some(copy(ep)),
                    s5("HTTP site '", sn, "' cannot proxy to TCP endpoint '", ep, "'"),
                );
            }
            let ghost mid2 = issues_view(report.issues@);
            if target.bind == EndpointBind::Loopback {
                if let Some(g) = ingress {
                    let ghost hs = str_views(g.hosts@);
                    let ghost f = unreachable_fn(p@, sn@, ep@, target.target_host@, target.remote_via is Some);
                    let mut k: usize = 0;
                    while k < g.hosts.len()
                        invariant
                            hs == str_views(g.hosts@),
                            f == unreachable_fn(p@, sn@, ep@, target.target_host@, target.remote_via is Some),
                            0 <= k <= g.hosts@.len(),
                            issues_view(report.issues@) == mid2 + concat_map(hs.take(k as int), f),
                        decreases g.hosts@.len() - k,
                    {
                        let ih = g.hosts[k].as_str();
                        proof {
                            lemma_concat_map_step(hs, f, k as int);
                            assert(hs[k as int] == ih@);
                        }
                        if !str_eq(ih, target.target_host.as_str()) && target.remote_via.is_none() {
                            report.error(
                                "site.route_unreachable_endpoint",
                                Some(s2(p, ".action.endpoint")),
                                Some(copy(ep)),
                                s7(
                                    "HTTP site '",
                                    sn,
                                    "' ingress host '",
                                    ih,
                                    "' cannot reach loopback endpoint '",
                                    ep,
                                    "' without remoteVia",
                                ),
                            );
                        }
                        k += 1;
                    }
                    proof {
                        lemma_concat_map_all(hs, f);
                    }
                }
            }
        },
        None => {
            report.error(
                "site.route_unknown_endpoint",
                Some(s2(p, ".action.endpoint")),
                Some(copy(ep)),
                s5("HTTP site '", sn, "' references unknown endpoint '", ep, "'"),
            );
        },
    }
    assert(issues_view(report.issues@) =~= start + proxy_issues(
        *topology,
        sn@,
        match ingress {
            Some(g) => Some(*g),
            None => None,
        },
        p@,
        ep@,
        *strip_prefix,
    ));
}

fn check_action(
    topology: &Topology,
    report: &mut ValidationReport,
    sn: &str,
    ingress: Option<&IngressGroup>,
    p: &str,
    action: &HttpAction,
)
    ensures
        issues_view(final(report).issues@) == issues_view(old(report).issues@) + action_issues(
            *topology,
            sn@,
            match ingress {
                Some(g) => Some(*g),
                None => None,
            },
            p@,
            *action,
        ),
{
    let ghost start = issues_view(report.issues@);
    match action {
        HttpAction::Proxy { endpoint, strip_prefix } => {
            check_proxy(topology, report, sn, ingress, p, endpoint.as_str(), strip_prefix);
        },
        HttpAction::Files { root_ref, .. } => {
            if is_blank_str(root_ref.as_str()) {
                report.error(
                    "site.route_empty_root_ref",
                    Some(s2(p, ".action.rootRef")),
                    Some(copy(root_ref.as_str())),
                    s3("HTTP site '", sn, "' files rootRef must not be empty"),
                );
            }
        },
        HttpAction::Redirect { to, status, .. } => {
            if is_blank_str(to.as_str()) {
                report.error(
                    "site.route_empty_redirect",
                    Some(s2(p, ".action.to")),
                    Some(copy(to.as_str())),
                    s3("HTTP site '", sn, "' redirect target must not be empty"),
                );
            }
            if !(300 <= *status && *status <= 399) {
                report.error(
                    "site.route_invalid_redirect_status",
                    Some(s2(p, ".action.status")),
                    Some(dec16(*status)),
                    s3("HTTP site '", sn, "' redirect status must be 300..=399"),
                );
            }
        },
        HttpAction::Respond { status, .. } => {
            if !(100 <= *status && *status <= 599) {
                report.error(
                    "site.route_invalid_response_status",
                    Some(s2(p, ".action.status")),
                    Some(dec16(*status)),
                    s3("HTTP site '", sn, "' response status must be 100..=599"),
                );
            }
        },
    }
    assert(issues_view(report.issues@) =~= start + action_issues(
        *topology,
        sn@,
        match ingress {
            Some(g) => Some(*g),
            None => None,
        },
        p@,
        *action,
    ));
}

fn check_route_matchers(report: &mut ValidationReport, sn: &str, p: &str, route: &HttpRoute)
    ensures
        issues_view(final(report).issues@) == issues_view(old(report).issues@) + concat_map(
            route.matcher.paths@,
            path_matcher_fn(p@, sn@),
        ) + concat_map(str_views(route.matcher.absent_query_params@), query_fn(p@, sn@)),
{
    let ghost start = issues_view(report.issues@);
    let ghost f = path_matcher_fn(p@, sn@);
    let mut mi: usize = 0;
    while mi < route.matcher.paths.len()
        invariant
            f == path_matcher_fn(p@, sn@),
            0 <= mi <= route.matcher.paths@.len(),
            issues_view(report.issues@) == start + concat_map(route.matcher.paths@.take(mi as int), f),
        decreases route.matcher.paths@.len() - mi,
    {
        proof {
            lemma_concat_map_step(route.matcher.paths@, f, mi as int);
        }
        let value = route.matcher.paths[mi].value();
        if !str_starts_with(value, "/") {
            report.error(
                "site.route_path_not_absolute",
                Some(s4(p, ".match.paths.", dec(mi).as_str(), ".value")),
                Some(copy(value)),
                s3("HTTP site '", sn, "' route paths must be absolute"),
            );
        }
        mi += 1;
    }
    proof {
        lemma_concat_map_all(route.matcher.paths@, f);
    }
    let ghost mid = issues_view(report.issues@);
    let ghost qs = str_views(route.matcher.absent_query_params@);
    let ghost g = query_fn(p@, sn@);
    let mut qi: usize = 0;
    while qi < route.matcher.absent_query_params.len()
        invariant
            qs == str_views(route.matcher.absent_query_params@),
            g == query_fn(p@, sn@),
            0 <= qi <= route.matcher.absent_query_params@.len(),
            issues_view(report.issues@) == mid + concat_map(qs.take(qi as int), g),
        decreases route.matcher.absent_query_params@.len() - qi,
    {
        let q = route.matcher.absent_query_params[qi].as_str();
        proof {
            lemma_concat_map_step(qs, g, qi as int);
            assert(qs[qi as int] == q@);
        }
        if is_blank_str(q) {
            report.error(
                "site.route_empty_absent_query_param",
                Some(s3(p, ".match.absentQueryParams.", dec(qi).as_str())),
                Some(copy(q)),
                s3("HTTP site '", sn, "' absent query parameters must not be empty"),
            );
        }
        qi += 1;
    }
    proof {
        lemma_concat_map_all(qs, g);
    }
}

fn check_route_extras(report: &mut ValidationReport, sn: &str, p: &str, route: &HttpRoute)
    ensures
        issues_view(final(report).issues@) == issues_view(old(report).issues@) + match route.auth_policy {
            Some(a) => raise_if(
                is_blank(a@),
                err(
                    "site.route_empty_auth_policy"@,
                    Some(p@ + ".authPolicy"@),
                    Some(a@),
                    "HTTP site '"@ + sn@ + "' authPolicy must not be empty"@,
                ),
            ),
            None => Seq::empty(),
        } + concat_map(keys_of(header_entries(route.response_headers)), header_fn(p@, sn@)),
{
    let ghost start = issues_view(report.issues@);
    if let Some(a) = &route.auth_policy {
        if is_blank_str(a.as_str()) {
            report.error(
                "site.route_empty_auth_policy",
                Some(s2(p, ".authPolicy")),
                Some(copy(a.as_str())),
                s3("HTTP site '", sn, "' authPolicy must not be empty"),
            );
        }
    }
    let ghost mid = issues_view(report.issues@);
    let ghost hs = keys_of(header_entries(route.response_headers));
    let ghost f = header_fn(p@, sn@);
    let n = header_map_len(&route.response_headers);
    let mut k: usize = 0;
    while k < n
        invariant
            hs == keys_of(header_entries(route.response_headers)),
            f == header_fn(p@, sn@),
            n == hs.len(),
            0 <= k <= n,
            issues_view(report.issues@) == mid + concat_map(hs.take(k as int), f),
        decreases n - k,
    {
        match header_map_get_index(&route.response_headers, k) {
            Some((h, _)) => {
                proof {
                    lemma_concat_map_step(hs, f, k as int);
                    assert(hs[k as int] == h@);
                }
                if is_blank_str(h.as_str()) {
                    report.error(
                        "site.route_empty_response_header",
                        Some(s2(p, ".responseHeaders")),
                        Some(copy(h.as_str())),
                        s3("HTTP site '", sn, "' response header names must not be empty"),
                    );
                }
            },
            None => {},
        }
        k += 1;
    }
    proof {
        lemma_concat_map_all(hs, f);
    }
}

#[verifier::rlimit(50)]
fn check_route(
    topology: &Topology,
    report: &mut ValidationReport,
    sn: &str,
    ingress: Option<&IngressGroup>,
    routes: &Vec<HttpRoute>,
    idx: usize,
)
    requires
        idx < routes@.len(),
    ensures
        issues_view(final(report).issues@) == issues_view(old(report).issues@) + route_issues(
            *topology,
            sn@,
            match ingress {
                Some(g) => Some(*g),
                None => None,
            },
            routes@,
            idx as int,
            routes@[idx as int],
        ),
{
    let ghost s0 = issues_view(report.issues@);
    let route = &routes[idx];
    let p = s3(s3("services.httpSites.", sn, ".routes").as_str(), ".", dec(idx).as_str());
    let mut dup = false;
    let mut j: usize = 0;
    while j < idx
        invariant
            idx < routes@.len(),
            route == &routes@[idx as int],
            0 <= j <= idx,
            dup == exists|q: int| 0 <= q < j && same_signature(#[trigger] routes@[q], *route),
        decreases idx - j,
    {
        if !dup && same_route_signature(&routes[j], route) {
            dup = true;
        }
        proof {
            if !dup {
                assert(!same_signature(routes@[j as int], *route));
            }
        }
        j += 1;
    }
    if dup {
        report.error(
            "site.route_duplicate_match",
            Some(s2(p.as_str(), ".match")),
            None,
            s3("HTTP site '", sn, "' has duplicate route match signatures"),
        );
    }
    let ghost s1 = issues_view(report.issues@);
    check_route_matchers(report, sn, p.as_str(), route);
    let ghost s2_ = issues_view(report.issues@);
    check_route_extras(report, sn, p.as_str(), route);
    let ghost s3_ = issues_view(report.issues@);
    check_action(topology, report, sn, ingress, p.as_str(), &route.action);
    assert(issues_view(report.issues@) =~= s0 + route_issues(
        *topology,
        sn@,
        match ingress {
            Some(g) => Some(*g),
            None => None,
        },
        routes@,
        idx as int,
        routes@[idx as int],
    ));
}

proof fn lemma_fallback_step(routes: Seq<HttpRoute>, i: int)
    requires
        0 <= i < routes.len(),
    ensures
        fallback_indices(routes.take(i + 1)) == if is_fallback(routes[i]) {
            fallback_indices(routes.take(i)).push(i)
        } else {
            fallback_indices(routes.take(i))
        },
{
    assert(routes.take(i + 1).drop_last() =~= routes.take(i));
}

/// Checks the routes of one HTTP site.
pub fn validate_http_routes(
    topology: &Topology,
    sn: &str,
    routes: &Vec<HttpRoute>,
    ingress: Option<&IngressGroup>,
    report: &mut ValidationReport,
)
    ensures
        issues_view(final(report).issues@) == issues_view(old(report).issues@) + routes_issues(
            *topology,
            sn@,
            routes@,
            match ingress {
                Some(g) => Some(*g),
                None => None,
            },
        ),
{
    let ghost ig = match ingress {
        Some(g) => Some(*g),
        None => None,
    };
    let base = s3("services.httpSites.", sn, ".routes");
    if routes.len() == 0 {
        report.error(
            "site.routes_empty",
            Some(copy(base.as_str())),
            None,
            s3("HTTP site '", sn, "' must declare at least one route"),
        );
        return;
    }
    let ghost start = issues_view(report.issues@);
    let ghost f = route_fn(*topology, sn@, ig, routes@);
    let mut fallbacks: Vec<usize> = Vec::new();
    let mut i: usize = 0;
    while i < routes.len()
        invariant
            f == route_fn(*topology, sn@, ig, routes@),
            ig == match ingress {
                Some(g) => Some(*g),
                None => None::<IngressGroup>,
            },
            base@ == routes_base(sn@),
            0 <= i <= routes@.len(),
            fallbacks@.len() <= i,
            forall|k: int| 0 <= k < fallbacks@.len() ==> fallbacks@[k] < i,
            fallbacks@.map_values(|x: usize| x as int) == fallback_indices(routes@.take(i as int)),
            issues_view(report.issues@) == start + concat_map(routes@.take(i as int), f),
        decreases routes@.len() - i,
    {
        proof {
            lemma_concat_map_step(routes@, f, i as int);
            lemma_fallback_step(routes@, i as int);
        }
        if routes[i].matcher.paths.len() == 0 && routes[i].matcher.absent_query_params.len() == 0 {
            fallbacks.push(i);
        }
        check_route(topology, report, sn, ingress, routes, i);
        i += 1;
        assert(fallbacks@.map_values(|x: usize| x as int) =~= fallback_indices(routes@.take(i as int)));
    }
    proof {
        lemma_concat_map_all(routes@, f);
        assert(routes@.take(routes@.len() as int) =~= routes@);
    }
    let ghost mid = issues_view(report.issues@);
    if fallbacks.len() != 1 {
        report.error(
            "site.route_fallback_count",
            Some(copy(base.as_str())),
            Some(dec(fallbacks.len())),
            s3("HTTP site '", sn, "' must declare exactly one fallback route"),
        );
    } else if fallbacks[0] + 1 != routes.len() {
        assert(fallback_indices(routes@)[0] == fallbacks@[0] as int);
        report.error(
            "site.route_fallback_not_last",
            Some(s3(base.as_str(), ".", dec(fallbacks[0]).as_str())),
            None,
            s3("HTTP site '", sn, "' fallback route must be last"),
        );
    } else {
        assert(fallback_indices(routes@)[0] == fallbacks@[0] as int);
    }
    assert(issues_view(report.issues@) =~= mid + fallback_issue(sn@, routes@));
}

} // verus!
