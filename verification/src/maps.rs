//! The ordered maps of the topology (`indexmap::IndexMap` keyed by name).
//! Each instantiation gets a name for the entries it holds, in insertion
//! order, and the lookups the library makes go through wrappers whose
//! contracts are stated over those entries.
use crate::topology::{
    Endpoint, Host, HttpSite, IngressGroup, Link, LinkBinding, User, VpnProfile,
};
use indexmap::IndexMap;
use vstd::prelude::*;

verus! {

/// `indexmap::IndexMap`, declared so that the topology can hold it. Its
/// contents are opaque here; the names below describe them.
#[verifier::external_type_specification]
#[verifier::external_body]
#[verifier::reject_recursive_types(K)]
#[verifier::reject_recursive_types(V)]
#[verifier::reject_recursive_types(S)]
pub struct ExIndexMap<K, V, S>(IndexMap<K, V, S>);

/// `IndexMap::clone`, which the derived `Clone` of the topology types calls.
/// Nothing is claimed of the copy.
pub assume_specification<K: Clone, V: Clone, S: Clone>[ <IndexMap<K, V, S> as Clone>::clone ](
    m: &IndexMap<K, V, S>,
) -> IndexMap<K, V, S>;

/// `i` is the first position whose key is `k`.
pub open spec fn is_first_key<V>(e: Seq<(Seq<char>, V)>, k: Seq<char>, i: int) -> bool {
    0 <= i < e.len() && e[i].0 == k && forall|j: int| 0 <= j < i ==> e[j].0 != k
}

/// The value stored under `k`: the one at the first position with that key.
pub open spec fn lookup<V>(e: Seq<(Seq<char>, V)>, k: Seq<char>) -> Option<V> {
    if exists|i: int| is_first_key(e, k, i) {
        Some(e[choose|i: int| is_first_key(e, k, i)].1)
    } else {
        None
    }
}

/// The keys of the entries, in order.
pub open spec fn keys_of<V>(e: Seq<(Seq<char>, V)>) -> Seq<Seq<char>> {
    e.map_values(|p: (Seq<char>, V)| p.0)
}

pub proof fn lemma_lookup_first<V>(e: Seq<(Seq<char>, V)>, k: Seq<char>, i: int)
    requires
        is_first_key(e, k, i),
    ensures
        lookup(e, k) == Some(e[i].1),
{
    let c = choose|c: int| is_first_key(e, k, c);
    assert(is_first_key(e, k, c));
    if c < i {
        assert(e[c].0 != k);
    }
    if i < c {
        assert(e[i].0 != k);
    }
}

pub proof fn lemma_lookup_hit<V>(e: Seq<(Seq<char>, V)>, k: Seq<char>, i: int)
    requires
        0 <= i < e.len(),
        e[i].0 == k,
    ensures
        lookup(e, k) is Some,
        exists|j: int| 0 <= j <= i && is_first_key(e, k, j),
    decreases i,
{
    if exists|j: int| 0 <= j < i && e[j].0 == k {
        let j = choose|j: int| 0 <= j < i && e[j].0 == k;
        lemma_lookup_hit(e, k, j);
    } else {
        assert(is_first_key(e, k, i));
    }
}

/// The entries (name, value) of an ordered map of links declared by the topology, in order.
pub uninterp spec fn link_entries(m: IndexMap<String, Link>) -> Seq<(Seq<char>, Link)>;

/// `IndexMap::len`: the number of entries.
#[verifier::external_body]
pub(crate) fn link_map_len(m: &IndexMap<String, Link>) -> (n: usize)
    ensures
        n == link_entries(*m).len(),
{
    m.len()
}

/// `IndexMap::get_index`: the entry at position `i`, if there is one.
#[verifier::external_body]
pub(crate) fn link_map_get_index(m: &IndexMap<String, Link>, i: usize) -> (r: Option<(&String, &Link)>)
    ensures
        match r {
            Some((k, v)) => i < link_entries(*m).len() && k@ == link_entries(*m)[i as int].0
                && *v == link_entries(*m)[i as int].1,
            None => i >= link_entries(*m).len(),
        },
{
    m.get_index(i)
}

/// `IndexMap::get`: the value stored under `key`. Keys are unique in an
/// `IndexMap`, so the value found is the one at the first position holding
/// that key.
#[verifier::external_body]
pub(crate) fn link_map_get<'a>(m: &'a IndexMap<String, Link>, key: &str) -> (r: Option<&'a Link>)
    ensures
        match r {
            Some(v) => lookup(link_entries(*m), key@) == Some(*v),
            None => lookup(link_entries(*m), key@) is None,
        },
{
    m.get(key)
}

/// The entries (name, value) of an ordered map of hosts of the fleet, in order.
pub uninterp spec fn host_entries(m: IndexMap<String, Host>) -> Seq<(Seq<char>, Host)>;

/// `IndexMap::len`: the number of entries.
#[verifier::external_body]
pub(crate) fn host_map_len(m: &IndexMap<String, Host>) -> (n: usize)
    ensures
        n == host_entries(*m).len(),
{
    m.len()
}

/// `IndexMap::get_index`: the entry at position `i`, if there is one.
#[verifier::external_body]
pub(crate) fn host_map_get_index(m: &IndexMap<String, Host>, i: usize) -> (r: Option<(&String, &Host)>)
    ensures
        match r {
            Some((k, v)) => i < host_entries(*m).len() && k@ == host_entries(*m)[i as int].0
                && *v == host_entries(*m)[i as int].1,
            None => i >= host_entries(*m).len(),
        },
{
    m.get_index(i)
}

/// `IndexMap::get`: the value stored under `key`. Keys are unique in an
/// `IndexMap`, so the value found is the one at the first position holding
/// that key.
#[verifier::external_body]
pub(crate) fn host_map_get<'a>(m: &'a IndexMap<String, Host>, key: &str) -> (r: Option<&'a Host>)
    ensures
        match r {
            Some(v) => lookup(host_entries(*m), key@) == Some(*v),
            None => lookup(host_entries(*m), key@) is None,
        },
{
    m.get(key)
}

/// The entries (name, value) of an ordered map of link bindings of a host, in order.
pub uninterp spec fn binding_entries(m: IndexMap<String, LinkBinding>) -> Seq<(Seq<char>, LinkBinding)>;

/// `IndexMap::len`: the number of entries.
#[verifier::external_body]
pub(crate) fn binding_map_len(m: &IndexMap<String, LinkBinding>) -> (n: usize)
    ensures
        n == binding_entries(*m).len(),
{
    m.len()
}

/// `IndexMap::get_index`: the entry at position `i`, if there is one.
#[verifier::external_body]
pub(crate) fn binding_map_get_index(m: &IndexMap<String, LinkBinding>, i: usize) -> (r: Option<(&String, &LinkBinding)>)
    ensures
        match r {
            Some((k, v)) => i < binding_entries(*m).len() && k@ == binding_entries(*m)[i as int].0
                && *v == binding_entries(*m)[i as int].1,
            None => i >= binding_entries(*m).len(),
        },
{
    m.get_index(i)
}

/// `IndexMap::get`: the value stored under `key`. Keys are unique in an
/// `IndexMap`, so the value found is the one at the first position holding
/// that key.
#[verifier::external_body]
pub(crate) fn binding_map_get<'a>(m: &'a IndexMap<String, LinkBinding>, key: &str) -> (r: Option<&'a LinkBinding>)
    ensures
        match r {
            Some(v) => lookup(binding_entries(*m), key@) == Some(*v),
            None => lookup(binding_entries(*m), key@) is None,
        },
{
    m.get(key)
}

/// The entries (name, value) of an ordered map of users of a host, in order.
pub uninterp spec fn user_entries(m: IndexMap<String, User>) -> Seq<(Seq<char>, User)>;

/// `IndexMap::get`: the value stored under `key`. Keys are unique in an
/// `IndexMap`, so the value found is the one at the first position holding
/// that key.
#[verifier::external_body]
pub(crate) fn user_map_get<'a>(m: &'a IndexMap<String, User>, key: &str) -> (r: Option<&'a User>)
    ensures
        match r {
            Some(v) => lookup(user_entries(*m), key@) == Some(*v),
            None => lookup(user_entries(*m), key@) is None,
        },
{
    m.get(key)
}

/// The entries (name, value) of an ordered map of VPN profiles of a host, in order.
pub uninterp spec fn vpn_profile_entries(m: IndexMap<String, VpnProfile>) -> Seq<(Seq<char>, VpnProfile)>;

/// `IndexMap::len`: the number of entries.
#[verifier::external_body]
pub(crate) fn vpn_profile_map_len(m: &IndexMap<String, VpnProfile>) -> (n: usize)
    ensures
        n == vpn_profile_entries(*m).len(),
{
    m.len()
}

/// `IndexMap::get_index`: the entry at position `i`, if there is one.
#[verifier::external_body]
pub(crate) fn vpn_profile_map_get_index(m: &IndexMap<String, VpnProfile>, i: usize) -> (r: Option<(&String, &VpnProfile)>)
    ensures
        match r {
            Some((k, v)) => i < vpn_profile_entries(*m).len() && k@ == vpn_profile_entries(*m)[i as int].0
                && *v == vpn_profile_entries(*m)[i as int].1,
            None => i >= vpn_profile_entries(*m).len(),
        },
{
    m.get_index(i)
}

/// `IndexMap::get`: the value stored under `key`. Keys are unique in an
/// `IndexMap`, so the value found is the one at the first position holding
/// that key.
#[verifier::external_body]
pub(crate) fn vpn_profile_map_get<'a>(m: &'a IndexMap<String, VpnProfile>, key: &str) -> (r: Option<&'a VpnProfile>)
    ensures
        match r {
            Some(v) => lookup(vpn_profile_entries(*m), key@) == Some(*v),
            None => lookup(vpn_profile_entries(*m), key@) is None,
        },
{
    m.get(key)
}

/// The entries (name, value) of an ordered map of service endpoints, in order.
pub uninterp spec fn endpoint_entries(m: IndexMap<String, Endpoint>) -> Seq<(Seq<char>, Endpoint)>;

/// `IndexMap::len`: the number of entries.
#[verifier::external_body]
pub(crate) fn endpoint_map_len(m: &IndexMap<String, Endpoint>) -> (n: usize)
    ensures
        n == endpoint_entries(*m).len(),
{
    m.len()
}

/// `IndexMap::get_index`: the entry at position `i`, if there is one.
#[verifier::external_body]
pub(crate) fn endpoint_map_get_index(m: &IndexMap<String, Endpoint>, i: usize) -> (r: Option<(&String, &Endpoint)>)
    ensures
        match r {
            Some((k, v)) => i < endpoint_entries(*m).len() && k@ == endpoint_entries(*m)[i as int].0
                && *v == endpoint_entries(*m)[i as int].1,
            None => i >= endpoint_entries(*m).len(),
        },
{
    m.get_index(i)
}

/// `IndexMap::get`: the value stored under `key`. Keys are unique in an
/// `IndexMap`, so the value found is the one at the first position holding
/// that key.
#[verifier::external_body]
pub(crate) fn endpoint_map_get<'a>(m: &'a IndexMap<String, Endpoint>, key: &str) -> (r: Option<&'a Endpoint>)
    ensures
        match r {
            Some(v) => lookup(endpoint_entries(*m), key@) == Some(*v),
            None => lookup(endpoint_entries(*m), key@) is None,
        },
{
    m.get(key)
}

/// The entries (name, value) of an ordered map of HTTP sites, in order.
pub uninterp spec fn http_site_entries(m: IndexMap<String, HttpSite>) -> Seq<(Seq<char>, HttpSite)>;

/// `IndexMap::len`: the number of entries.
#[verifier::external_body]
pub(crate) fn http_site_map_len(m: &IndexMap<String, HttpSite>) -> (n: usize)
    ensures
        n == http_site_entries(*m).len(),
{
    m.len()
}

/// `IndexMap::get_index`: the entry at position `i`, if there is one.
#[verifier::external_body]
pub(crate) fn http_site_map_get_index(m: &IndexMap<String, HttpSite>, i: usize) -> (r: Option<(&String, &HttpSite)>)
    ensures
        match r {
            Some((k, v)) => i < http_site_entries(*m).len() && k@ == http_site_entries(*m)[i as int].0
                && *v == http_site_entries(*m)[i as int].1,
            None => i >= http_site_entries(*m).len(),
        },
{
    m.get_index(i)
}

/// `IndexMap::get`: the value stored under `key`. Keys are unique in an
/// `IndexMap`, so the value found is the one at the first position holding
/// that key.
#[verifier::external_body]
pub(crate) fn http_site_map_get<'a>(m: &'a IndexMap<String, HttpSite>, key: &str) -> (r: Option<&'a HttpSite>)
    ensures
        match r {
            Some(v) => lookup(http_site_entries(*m), key@) == Some(*v),
            None => lookup(http_site_entries(*m), key@) is None,
        },
{
    m.get(key)
}

/// The entries (name, value) of an ordered map of response headers of a route, in order.
pub uninterp spec fn header_entries(m: IndexMap<String, Vec<String>>) -> Seq<(Seq<char>, Vec<String>)>;

/// `IndexMap::len`: the number of entries.
#[verifier::external_body]
pub(crate) fn header_map_len(m: &IndexMap<String, Vec<String>>) -> (n: usize)
    ensures
        n == header_entries(*m).len(),
{
    m.len()
}

/// `IndexMap::get_index`: the entry at position `i`, if there is one.
#[verifier::external_body]
pub(crate) fn header_map_get_index(m: &IndexMap<String, Vec<String>>, i: usize) -> (r: Option<(&String, &Vec<String>)>)
    ensures
        match r {
            Some((k, v)) => i < header_entries(*m).len() && k@ == header_entries(*m)[i as int].0
                && *v == header_entries(*m)[i as int].1,
            None => i >= header_entries(*m).len(),
        },
{
    m.get_index(i)
}

/// The entries (name, value) of an ordered map of ingress groups, in order.
pub uninterp spec fn ingress_group_entries(m: IndexMap<String, IngressGroup>) -> Seq<(Seq<char>, IngressGroup)>;

/// `IndexMap::len`: the number of entries.
#[verifier::external_body]
pub(crate) fn ingress_group_map_len(m: &IndexMap<String, IngressGroup>) -> (n: usize)
    ensures
        n == ingress_group_entries(*m).len(),
{
    m.len()
}

/// `IndexMap::get_index`: the entry at position `i`, if there is one.
#[verifier::external_body]
pub(crate) fn ingress_group_map_get_index(m: &IndexMap<String, IngressGroup>, i: usize) -> (r: Option<(&String, &IngressGroup)>)
    ensures
        match r {
            Some((k, v)) => i < ingress_group_entries(*m).len() && k@ == ingress_group_entries(*m)[i as int].0
                && *v == ingress_group_entries(*m)[i as int].1,
            None => i >= ingress_group_entries(*m).len(),
        },
{
    m.get_index(i)
}

/// `IndexMap::get`: the value stored under `key`. Keys are unique in an
/// `IndexMap`, so the value found is the one at the first position holding
/// that key.
#[verifier::external_body]
pub(crate) fn ingress_group_map_get<'a>(m: &'a IndexMap<String, IngressGroup>, key: &str) -> (r: Option<&'a IngressGroup>)
    ensures
        match r {
            Some(v) => lookup(ingress_group_entries(*m), key@) == Some(*v),
            None => lookup(ingress_group_entries(*m), key@) is None,
        },
{
    m.get(key)
}

/// The entries after `IndexMap::insert` of `(k, v)`: a key already present
/// keeps its position and takes the new value; a new key goes last.
pub open spec fn inserted<V>(e: Seq<(Seq<char>, V)>, k: Seq<char>, v: V) -> Seq<(Seq<char>, V)> {
    if exists|i: int| is_first_key(e, k, i) {
        e.update(choose|i: int| is_first_key(e, k, i), (k, v))
    } else {
        e.push((k, v))
    }
}

/// The entries (key, value) of an ordered map of strings, as text, in order.
pub uninterp spec fn string_entries(m: IndexMap<String, String>) -> Seq<(Seq<char>, Seq<char>)>;

/// `IndexMap::new`: an empty map.
#[verifier::external_body]
pub(crate) fn string_map_new() -> (m: IndexMap<String, String>)
    ensures
        string_entries(m).len() == 0,
{
    IndexMap::new()
}

/// `IndexMap::insert`: an existing key keeps its position and takes the new
/// value, and the old value is handed back; a new key goes last.
#[verifier::external_body]
pub(crate) fn string_map_insert(m: &mut IndexMap<String, String>, key: String, value: String) -> (r: Option<String>)
    ensures
        string_entries(*final(m)) == inserted(string_entries(*old(m)), key@, value@),
        match r {
            Some(prev) => lookup(string_entries(*old(m)), key@) == Some(prev@),
            None => lookup(string_entries(*old(m)), key@) is None,
        },
{
    m.insert(key, value)
}

/// Appending a new key makes it found with its value; other keys are
/// found as before.
pub proof fn lemma_lookup_push<V>(e: Seq<(Seq<char>, V)>, k: Seq<char>, v: V)
    requires
        forall|j: int| 0 <= j < e.len() ==> e[j].0 != k,
    ensures
        lookup(e.push((k, v)), k) == Some(v),
        forall|n: Seq<char>| n != k ==> lookup(e.push((k, v)), n) == lookup(e, n),
{
    let f = e.push((k, v));
    assert(is_first_key(f, k, e.len() as int));
    lemma_lookup_first(f, k, e.len() as int);
    assert forall|n: Seq<char>| n != k implies lookup(f, n) == lookup(e, n) by {
        if exists|i: int| is_first_key(e, n, i) {
            let i = choose|i: int| is_first_key(e, n, i);
            assert(is_first_key(f, n, i));
            lemma_lookup_first(f, n, i);
            lemma_lookup_first(e, n, i);
        } else {
            if exists|i: int| is_first_key(f, n, i) {
                let i = choose|i: int| is_first_key(f, n, i);
                assert(i != e.len());
                assert forall|j: int| 0 <= j < i implies e[j].0 != n by {
                    assert(f[j] == e[j]);
                }
                assert(is_first_key(e, n, i));
            }
        }
    }
}

/// Replacing the value at the first position of a key makes it found with
/// the new value; other keys are found as before.
pub proof fn lemma_lookup_set<V>(e: Seq<(Seq<char>, V)>, i: int, v: V)
    requires
        0 <= i < e.len(),
        is_first_key(e, e[i].0, i),
    ensures
        lookup(e.update(i, (e[i].0, v)), e[i].0) == Some(v),
        forall|n: Seq<char>| n != e[i].0 ==> lookup(e.update(i, (e[i].0, v)), n) == lookup(e, n),
{
    let k = e[i].0;
    let f = e.update(i, (k, v));
    assert(is_first_key(f, k, i));
    lemma_lookup_first(f, k, i);
    assert forall|n: Seq<char>| n != k implies lookup(f, n) == lookup(e, n) by {
        if exists|j: int| is_first_key(e, n, j) {
            let j = choose|j: int| is_first_key(e, n, j);
            assert(is_first_key(f, n, j));
            lemma_lookup_first(f, n, j);
            lemma_lookup_first(e, n, j);
        } else {
            if exists|j: int| is_first_key(f, n, j) {
                let j = choose|j: int| is_first_key(f, n, j);
                assert forall|m: int| 0 <= m < j implies e[m].0 != n by {
                    assert(f[m].0 == e[m].0);
                }
                assert(f[j].0 == e[j].0);
                assert(is_first_key(e, n, j));
            }
        }
    }
}

} // verus!
