//! Trust observation: host keys found in local trust stores (OpenSSH
//! known_hosts) classified against the keys the topology declares, and the
//! edits and decisions that follow from them.
pub mod notify;
pub mod openssh;
pub mod patch;
pub mod state;

use crate::maps::{
    binding_entries, binding_map_get_index, binding_map_len, host_entries, host_map_get_index,
    host_map_len, is_first_key, lemma_lookup_push, lemma_lookup_set, lookup,
};
use crate::net::slice_from;
use crate::seqs::{flat_map, lemma_flat_map_all, lemma_flat_map_step, opt_seq};
use crate::strs::{copy, str_views};
use crate::text::{
    ascii_lower, ascii_lowercase, ascii_upper, chars_of, find, find_chars, first_occurrence_at,
    lemma_find_is, lemma_find_some, occurs_at, str_eq, string_of_range, to_ascii_lowercase,
    to_ascii_uppercase,
};
use crate::topology::{Host, SshKnownHost, Topology};
use openssh::{opt_text, Entry, EntryView};
use vstd::prelude::*;

pub use openssh::OpenSshKnownHosts;

verus! {

/// Index of declared host keys: hostname (lower-cased) to key texts.
pub struct DeclaredTrust {
    host_keys: Vec<(String, Vec<String>)>,
}

/// The names a host's key is declared under: its name, host names, LAN and
/// direct-link addresses, and the address of every link binding, as the
/// OpenSSH known_hosts generation writes them.
pub open spec fn aliases(name: Seq<char>, h: Host) -> Seq<Seq<char>> {
    seq![name] + str_views(h.host_names@) + opt_seq(opt_text(h.network.lan_ip)) + opt_seq(
        opt_text(h.network.direct_link_ip),
    ) + binding_entries(h.links).map_values(|e: (Seq<char>, crate::topology::LinkBinding)| e.1.address@)
}

pub open spec fn alias_key_fn(n: Seq<char>, key: Seq<char>) -> spec_fn(int, Seq<char>) -> Seq<Seq<char>> {
    |j: int, a: Seq<char>|
        if to_ascii_lowercase(a) == n {
            seq![key]
        } else {
            Seq::empty()
        }
}

pub open spec fn host_key_fn(n: Seq<char>) -> spec_fn(int, (Seq<char>, Host)) -> Seq<Seq<char>> {
    |i: int, e: (Seq<char>, Host)|
        match e.1.host_pubkey {
            Some(k) => flat_map(aliases(e.0, e.1), alias_key_fn(n, k@)),
            None => Seq::empty(),
        }
}

pub open spec fn known_name_fn(n: Seq<char>, keys: Seq<Seq<char>>) -> spec_fn(int, Seq<char>) -> Seq<
    Seq<char>,
> {
    |j: int, hn: Seq<char>|
        if to_ascii_lowercase(hn) == n {
            keys
        } else {
            Seq::empty()
        }
}

pub open spec fn known_fn(n: Seq<char>) -> spec_fn(int, SshKnownHost) -> Seq<Seq<char>> {
    |i: int, s: SshKnownHost| flat_map(str_views(s.host_names@), known_name_fn(n, str_views(s.public_keys@)))
}

/// The keys a topology declares under a lower-case name, in order: those of
/// the hosts (once per alias that lower-cases to the name), then those of
/// the known-host declarations.
pub open spec fn declared_keys(t: Topology, n: Seq<char>) -> Seq<Seq<char>> {
    flat_map(host_entries(t.hosts), host_key_fn(n)) + flat_map(t.trust.ssh_known_hosts@, known_fn(n))
}

/// The host of a `[host]:port` form; any other name as it is.
pub open spec fn bracket_host(h: Seq<char>) -> Seq<char> {
    if h.len() > 0 && h[0] == '[' {
        match find(h.drop_first(), seq![']']) {
            Some(k) => h.drop_first().take(k),
            None => h,
        }
    } else {
        h
    }
}

/// The name a hostname is looked up under.
pub open spec fn lookup_name(h: Seq<char>) -> Seq<char> {
    to_ascii_lowercase(bracket_host(h))
}

impl DeclaredTrust {
    /// The index's entries: each lower-case name with its keys.
    pub closed spec fn entries(&self) -> Seq<(Seq<char>, Seq<Seq<char>>)> {
        self.host_keys@.map_values(|p: (String, Vec<String>)| (p.0@, str_views(p.1@)))
    }

    /// The keys declared under a lower-case name, in order.
    pub closed spec fn keys(&self, n: Seq<char>) -> Seq<Seq<char>> {
        match lookup(self.entries(), n) {
            Some(v) => v,
            None => Seq::empty(),
        }
    }

    fn position(&self, name: &str) -> (r: Option<usize>)
        ensures
            match r {
                Some(i) => i < self.host_keys@.len() && is_first_key(self.entries(), name@, i as int),
                None => forall|j: int| 0 <= j < self.entries().len() ==> self.entries()[j].0 != name@,
            },
    {
        let mut i: usize = 0;
        while i < self.host_keys.len()
            invariant
                0 <= i <= self.host_keys@.len(),
                forall|j: int| 0 <= j < i ==> self.entries()[j].0 != name@,
            decreases self.host_keys@.len() - i,
        {
            if str_eq(self.host_keys[i].0.as_str(), name) {
                return Some(i);
            }
            i += 1;
        }
        None
    }

    fn add_key(&mut self, name: String, key: &str)
        ensures
            forall|n: Seq<char>|
                #[trigger] final(self).keys(n) == old(self).keys(n) + if n == name@ {
                    seq![key@]
                } else {
                    Seq::<Seq<char>>::empty()
                },
    {
        let ghost e = self.entries();
        match self.position(name.as_str()) {
            Some(i) => {
                let (k, mut ks) = self.host_keys.remove(i);
                ks.push(copy(key));
                let ghost nv = str_views(ks@);
                self.host_keys.insert(i, (k, ks));
                proof {
                    assert(nv =~= e[i as int].1.push(key@));
                    assert(self.entries() =~= e.update(i as int, (e[i as int].0, nv)));
                    lemma_lookup_set(e, i as int, nv);
                }
            },
            None => {
                let mut ks: Vec<String> = Vec::new();
                ks.push(copy(key));
                let ghost nm = name@;
                assert(str_views(ks@) =~= seq![key@]);
                self.host_keys.push((name, ks));
                proof {
                    assert(self.entries() =~= e.push((nm, seq![key@])));
                    lemma_lookup_push(e, nm, seq![key@]);
                    assert(Seq::<Seq<char>>::empty() + seq![key@] =~= seq![key@]);
                }
            },
        }
        assert forall|n: Seq<char>| #[trigger] self.keys(n) == old(self).keys(n) + if n == name@ {
            seq![key@]
        } else {
            Seq::<Seq<char>>::empty()
        } by {
            if n != name@ {
                assert(old(self).keys(n) + Seq::<Seq<char>>::empty() =~= old(self).keys(n));
            }
        }
    }

    fn add_host(&mut self, hn: &str, h: &Host, Ghost(before): Ghost<spec_fn(Seq<char>) -> Seq<Seq<char>>>)
        requires
            forall|n: Seq<char>| #[trigger] old(self).keys(n) == before(n),
        ensures
            forall|n: Seq<char>|
                #[trigger] final(self).keys(n) == before(n) + host_key_fn(n)(0, (hn@, *h)),
    {
        match &h.host_pubkey {
            None => {
                assert forall|n: Seq<char>| #[trigger] self.keys(n) == before(n) + host_key_fn(n)(
                    0,
                    (hn@, *h),
                ) by {
                    assert(before(n) + Seq::<Seq<char>>::empty() =~= before(n));
                }
            },
            Some(k) => {
                let mut names: Vec<String> = Vec::new();
                names.push(copy(hn));
                let mut j: usize = 0;
                while j < h.host_names.len()
                    invariant
                        0 <= j <= h.host_names@.len(),
                        str_views(names@) == seq![hn@] + str_views(h.host_names@).take(j as int),
                    decreases h.host_names@.len() - j,
                {
                    let ghost before = str_views(names@);
                    names.push(copy(h.host_names[j].as_str()));
                    assert(str_views(names@) =~= before.push(h.host_names@[j as int]@));
                    assert(str_views(h.host_names@).take(j + 1) =~= str_views(h.host_names@).take(
                        j as int,
                    ).push(h.host_names@[j as int]@));
                    assert(str_views(names@) =~= seq![hn@] + str_views(h.host_names@).take(j + 1));
                    j += 1;
                }
                assert(str_views(h.host_names@).take(h.host_names@.len() as int) =~= str_views(
                    h.host_names@,
                ));
                let ghost lan = opt_seq(opt_text(h.network.lan_ip));
                let ghost direct = opt_seq(opt_text(h.network.direct_link_ip));
                let ghost head = seq![hn@] + str_views(h.host_names@);
                assert(str_views(names@) == head);
                if let Some(ip) = &h.network.lan_ip {
                    let ghost before = str_views(names@);
                    names.push(copy(ip.as_str()));
                    assert(str_views(names@) =~= before.push(ip@));
                }
                assert(str_views(names@) =~= head + lan);
                if let Some(ip) = &h.network.direct_link_ip {
                    let ghost before = str_views(names@);
                    names.push(copy(ip.as_str()));
                    assert(str_views(names@) =~= before.push(ip@));
                }
                assert(str_views(names@) =~= head + lan + direct);
                let ghost bs = binding_entries(h.links);
                let ghost addrs = bs.map_values(
                    |e: (Seq<char>, crate::topology::LinkBinding)| e.1.address@,
                );
                let len = binding_map_len(&h.links);
                let mut b: usize = 0;
                while b < len
                    invariant
                        bs == binding_entries(h.links),
                        addrs == bs.map_values(
                            |e: (Seq<char>, crate::topology::LinkBinding)| e.1.address@,
                        ),
                        len == bs.len(),
                        0 <= b <= len,
                        str_views(names@) == head + lan + direct + addrs.take(b as int),
                    decreases len - b,
                {
                    match binding_map_get_index(&h.links, b) {
                        Some((_, binding)) => {
                            let ghost before = str_views(names@);
                            names.push(copy(binding.address.as_str()));
                            assert(str_views(names@) =~= before.push(binding.address@));
                            assert(addrs[b as int] == binding.address@);
                            assert(addrs.take(b + 1) =~= addrs.take(b as int).push(
                                binding.address@,
                            ));
                        },
                        None => {},
                    }
                    b += 1;
                }
                assert(addrs.take(len as int) =~= addrs);
                let ghost all = str_views(names@);
                assert(all == aliases(hn@, *h));
                let mut a: usize = 0;
                while a < names.len()
                    invariant
                        all == str_views(names@),
                        all == aliases(hn@, *h),
                        h.host_pubkey == Some(*k),
                        0 <= a <= names@.len(),
                        forall|n: Seq<char>|
                            #[trigger] self.keys(n) == before(n) + flat_map(
                                all.take(a as int),
                                alias_key_fn(n, k@),
                            ),
                    decreases names@.len() - a,
                {
                    let lower = ascii_lowercase(names[a].as_str());
                    let ghost lv = lower@;
                    let ghost prev = *self;
                    self.add_key(lower, k.as_str());
                    assert forall|n: Seq<char>| #[trigger] self.keys(n) == before(n) + flat_map(
                        all.take(a + 1),
                        alias_key_fn(n, k@),
                    ) by {
                        lemma_flat_map_step(all, alias_key_fn(n, k@), a as int);
                        assert(all[a as int] == names@[a as int]@);
                        assert(prev.keys(n) == before(n) + flat_map(
                            all.take(a as int),
                            alias_key_fn(n, k@),
                        ));
                    }
                    a += 1;
                }
                assert forall|n: Seq<char>| #[trigger] self.keys(n) == before(n) + host_key_fn(n)(
                    0,
                    (hn@, *h),
                ) by {
                    lemma_flat_map_all(all, alias_key_fn(n, k@));
                }
            },
        }
    }

    /// Builds the declared index from fleet hosts and the `Trust` section.
    ///
    /// A host's key is indexed under its name, host names, LAN and direct-link
    /// IPs, and every link binding address — the aliases the OpenSSH
    /// knownHosts generation writes. Lookups normalize `[host]:port` forms.
    pub fn from_topology(topology: &Topology) -> (r: Self)
        ensures
            forall|n: Seq<char>| #[trigger] r.keys(n) == declared_keys(*topology, n),
    {
        let mut d = DeclaredTrust { host_keys: Vec::new() };
        assert(d.entries() =~= Seq::<(Seq<char>, Seq<Seq<char>>)>::empty());
        let ghost hosts = host_entries(topology.hosts);
        let len = host_map_len(&topology.hosts);
        let mut i: usize = 0;
        while i < len
            invariant
                hosts == host_entries(topology.hosts),
                len == hosts.len(),
                0 <= i <= len,
                forall|n: Seq<char>|
                    #[trigger] d.keys(n) == flat_map(hosts.take(i as int), host_key_fn(n)),
            decreases len - i,
        {
            match host_map_get_index(&topology.hosts, i) {
                Some((hn, h)) => {
                    let ghost before = |n: Seq<char>| flat_map(hosts.take(i as int), host_key_fn(n));
                    d.add_host(hn.as_str(), h, Ghost(before));
                    assert forall|n: Seq<char>| #[trigger] d.keys(n) == flat_map(
                        hosts.take(i + 1),
                        host_key_fn(n),
                    ) by {
                        lemma_flat_map_step(hosts, host_key_fn(n), i as int);
                    }
                },
                None => {},
            }
            i += 1;
        }
        assert forall|n: Seq<char>| #[trigger] d.keys(n) == flat_map(hosts, host_key_fn(n)) by {
            lemma_flat_map_all(hosts, host_key_fn(n));
        }
        let known = &topology.trust.ssh_known_hosts;
        let mut k: usize = 0;
        while k < known.len()
            invariant
                hosts == host_entries(topology.hosts),
                known == &topology.trust.ssh_known_hosts,
                0 <= k <= known@.len(),
                forall|n: Seq<char>|
                    #[trigger] d.keys(n) == flat_map(hosts, host_key_fn(n)) + flat_map(
                        known@.take(k as int),
                        known_fn(n),
                    ),
            decreases known@.len() - k,
        {
            let entry = &known[k];
            let ghost base = |n: Seq<char>|
                flat_map(hosts, host_key_fn(n)) + flat_map(known@.take(k as int), known_fn(n));
            let ghost keys = str_views(entry.public_keys@);
            let ghost names = str_views(entry.host_names@);
            let mut j: usize = 0;
            while j < entry.host_names.len()
                invariant
                    keys == str_views(entry.public_keys@),
                    names == str_views(entry.host_names@),
                    0 <= j <= entry.host_names@.len(),
                    forall|n: Seq<char>|
                        #[trigger] d.keys(n) == base(n) + flat_map(
                            names.take(j as int),
                            known_name_fn(n, keys),
                        ),
                decreases entry.host_names@.len() - j,
            {
                let lower = ascii_lowercase(entry.host_names[j].as_str());
                let ghost lv = lower@;
                let mut p: usize = 0;
                let ghost start = d;
                while p < entry.public_keys.len()
                    invariant
                        keys == str_views(entry.public_keys@),
                        lv == lower@,
                        0 <= p <= entry.public_keys@.len(),
                        forall|n: Seq<char>|
                            #[trigger] d.keys(n) == start.keys(n) + if n == lv {
                                keys.take(p as int)
                            } else {
                                Seq::<Seq<char>>::empty()
                            },
                    decreases entry.public_keys@.len() - p,
                {
                    let ghost prev = d;
                    d.add_key(copy(lower.as_str()), entry.public_keys[p].as_str());
                    assert forall|n: Seq<char>| #[trigger] d.keys(n) == start.keys(n) + if n == lv {
                        keys.take(p + 1)
                    } else {
                        Seq::<Seq<char>>::empty()
                    } by {
                        assert(keys.take(p + 1) =~= keys.take(p as int).push(keys[p as int]));
                        assert(prev.keys(n) == start.keys(n) + if n == lv {
                            keys.take(p as int)
                        } else {
                            Seq::<Seq<char>>::empty()
                        });
                        if n != lv {
                            assert(start.keys(n) + Seq::<Seq<char>>::empty() =~= start.keys(n));
                        }
                    }
                    p += 1;
                }
                assert forall|n: Seq<char>| #[trigger] d.keys(n) == base(n) + flat_map(
                    names.take(j + 1),
                    known_name_fn(n, keys),
                ) by {
                    lemma_flat_map_step(names, known_name_fn(n, keys), j as int);
                    assert(keys.take(keys.len() as int) =~= keys);
                    assert(names[j as int] == entry.host_names@[j as int]@);
                    if n != lv {
                        assert(start.keys(n) + Seq::<Seq<char>>::empty() =~= start.keys(n));
                    }
                }
                j += 1;
            }
            assert forall|n: Seq<char>| #[trigger] d.keys(n) == flat_map(hosts, host_key_fn(n)) + flat_map(
                known@.take(k + 1),
                known_fn(n),
            ) by {
                lemma_flat_map_all(names, known_name_fn(n, keys));
                lemma_flat_map_step(known@, known_fn(n), k as int);
            }
            k += 1;
        }
        assert forall|n: Seq<char>| #[trigger] d.keys(n) == declared_keys(*topology, n) by {
            lemma_flat_map_all(known@, known_fn(n));
        }
        d
    }

    /// Keys declared for a hostname, if any. `[host]:port` forms resolve to
    /// the bracketed host.
    pub fn keys_for(&self, hostname: &str) -> (r: &[String])
        ensures
            str_views(r@) == self.keys(lookup_name(hostname@)),
    {
        let v = chars_of(hostname);
        let host = if v.len() > 0 && v[0] == '[' {
            let rest = slice_from(&v, 1);
            let close = chars_of("]");
            proof {
                reveal_strlit("]");
                assert(close@ =~= seq![']']);
                assert(rest@ =~= hostname@.drop_first());
            }
            match find_chars(&rest, &close) {
                Some(k) => {
                    proof {
                        lemma_find_some(rest@, close@, k as int);
                    }
                    let h = string_of_range(&rest, 0, k);
                    assert(h@ =~= rest@.take(k as int));
                    h
                },
                None => copy(hostname),
            }
        } else {
            copy(hostname)
        };
        assert(host@ == bracket_host(hostname@));
        let name = ascii_lowercase(host.as_str());
        match self.position(name.as_str()) {
            Some(i) => {
                proof {
                    crate::maps::lemma_lookup_first(self.entries(), name@, i as int);
                }
                self.host_keys[i].1.as_slice()
            },
            None => {
                proof {
                    if lookup(self.entries(), name@) is Some {
                        let c = choose|c: int| is_first_key(self.entries(), name@, c);
                        assert(self.entries()[c].0 == name@);
                    }
                }
                let empty: &[String] = &[];
                assert(str_views(empty@) =~= Seq::<Seq<char>>::empty());
                empty
            },
        }
    }
}

/// Lower-casing keeps brackets and changes nothing else into one.
proof fn lemma_lower_keeps_brackets(c: char)
    ensures
        (ascii_lower(c) == '[') == (c == '['),
        (ascii_lower(c) == ']') == (c == ']'),
        ascii_lower(ascii_lower(c)) == ascii_lower(c),
        ascii_lower(ascii_upper(c)) == ascii_lower(c),
{
    if 'A' <= c && c <= 'Z' {
        assert(('a' as u32) <= (c as u32) + 32 <= ('z' as u32));
    }
    if 'a' <= c && c <= 'z' {
        assert(('A' as u32) <= (c as u32) - 32 <= ('Z' as u32));
    }
}

/// Two texts with closing brackets in the same places have the same first
/// closing bracket.
proof fn lemma_find_close_agrees(a: Seq<char>, b: Seq<char>)
    requires
        a.len() == b.len(),
        forall|i: int| 0 <= i < a.len() ==> ((a[i] == ']') == (b[i] == ']')),
    ensures
        find(a, seq![']']) == find(b, seq![']']),
{
    let p = seq![']'];
    assert forall|j: int| occurs_at(a, p, j) <==> occurs_at(b, p, j) by {
        if 0 <= j < a.len() {
            assert(a.subrange(j, j + 1) =~= seq![a[j]]);
            assert(b.subrange(j, j + 1) =~= seq![b[j]]);
            if a[j] == ']' {
                assert(seq![a[j]] =~= p);
                assert(seq![b[j]] =~= p);
            } else {
                assert(seq![a[j]][0] != p[0]);
                assert(seq![b[j]][0] != p[0]);
            }
        }
    }
    if exists|i: int| first_occurrence_at(a, p, i) {
        let i = choose|i: int| first_occurrence_at(a, p, i);
        assert(first_occurrence_at(b, p, i));
        lemma_find_is(a, p, i);
        lemma_find_is(b, p, i);
    } else if exists|i: int| first_occurrence_at(b, p, i) {
        let i = choose|i: int| first_occurrence_at(b, p, i);
        assert(first_occurrence_at(a, p, i));
    }
}

/// Names that agree up to ASCII case are looked up under one name.
proof fn lemma_lookup_name_case(g: Seq<char>, h: Seq<char>)
    requires
        to_ascii_lowercase(g) == to_ascii_lowercase(h),
    ensures
        lookup_name(g) == lookup_name(h),
{
    assert(g.len() == to_ascii_lowercase(g).len());
    assert(h.len() == to_ascii_lowercase(h).len());
    assert forall|i: int| 0 <= i < g.len() implies ((g[i] == '[') == (h[i] == '[')) && ((g[i]
        == ']') == (h[i] == ']')) by {
        assert(to_ascii_lowercase(g)[i] == ascii_lower(g[i]));
        assert(to_ascii_lowercase(h)[i] == ascii_lower(h[i]));
        lemma_lower_keeps_brackets(g[i]);
        lemma_lower_keeps_brackets(h[i]);
    }
    if g.len() > 0 && g[0] == '[' {
        let (gd, hd) = (g.drop_first(), h.drop_first());
        lemma_find_close_agrees(gd, hd);
        match find(gd, seq![']']) {
            Some(k) => {
                lemma_find_some(gd, seq![']'], k);
                assert(to_ascii_lowercase(gd.take(k)) =~= to_ascii_lowercase(hd.take(k))) by {
                    assert forall|i: int| 0 <= i < k implies ascii_lower(gd.take(k)[i]) == ascii_lower(
                        hd.take(k)[i],
                    ) by {
                        assert(to_ascii_lowercase(g)[i + 1] == ascii_lower(g[i + 1]));
                        assert(to_ascii_lowercase(h)[i + 1] == ascii_lower(h[i + 1]));
                    }
                }
            },
            None => {},
        }
    }
}

/// Lookups ignore ASCII case: names that agree up to ASCII case find the
/// same declared keys.
pub proof fn lemma_keys_ignore_ascii_case(d: DeclaredTrust, g: Seq<char>, h: Seq<char>)
    requires
        to_ascii_lowercase(g) == to_ascii_lowercase(h),
    ensures
        d.keys(lookup_name(g)) == d.keys(lookup_name(h)),
{
    lemma_lookup_name_case(g, h);
}

/// A name in upper case and in lower case finds the keys that the name
/// itself finds.
pub proof fn lemma_keys_upper_and_lower_case(d: DeclaredTrust, h: Seq<char>)
    ensures
        d.keys(lookup_name(to_ascii_uppercase(h))) == d.keys(lookup_name(h)),
        d.keys(lookup_name(to_ascii_lowercase(h))) == d.keys(lookup_name(h)),
{
    assert forall|i: int| 0 <= i < h.len() implies to_ascii_lowercase(to_ascii_uppercase(h))[i]
        == to_ascii_lowercase(h)[i] && to_ascii_lowercase(to_ascii_lowercase(h))[i]
        == to_ascii_lowercase(h)[i] by {
        lemma_lower_keeps_brackets(h[i]);
    }
    assert(to_ascii_lowercase(to_ascii_uppercase(h)) =~= to_ascii_lowercase(h));
    assert(to_ascii_lowercase(to_ascii_lowercase(h)) =~= to_ascii_lowercase(h));
    lemma_lookup_name_case(to_ascii_uppercase(h), h);
    lemma_lookup_name_case(to_ascii_lowercase(h), h);
}

/// A `[host]:port` form finds the keys of its host, whatever the port.
pub proof fn lemma_keys_bracketed_port(d: DeclaredTrust, host: Seq<char>, port: Seq<char>)
    requires
        forall|i: int| 0 <= i < host.len() ==> host[i] != ']',
    ensures
        d.keys(lookup_name(seq!['['] + host + seq![']', ':'] + port)) == d.keys(lookup_name(host)),
{
    let s = seq!['['] + host + seq![']', ':'] + port;
    let rest = s.drop_first();
    let p = seq![']'];
    assert(rest =~= host + seq![']', ':'] + port);
    let n = host.len() as int;
    assert(rest[n] == ']');
    assert(rest.subrange(n, n + 1) =~= p);
    assert forall|j: int| 0 <= j < n implies !occurs_at(rest, p, j) by {
        assert(rest[j] == host[j]);
        if occurs_at(rest, p, j) {
            assert(rest.subrange(j, j + 1)[0] == rest[j]);
        }
    }
    lemma_find_is(rest, p, n);
    assert(rest.take(n) =~= host);
    if host.len() > 0 && host[0] == '[' {
        let hd = host.drop_first();
        if exists|i: int| first_occurrence_at(hd, p, i) {
            let i = choose|i: int| first_occurrence_at(hd, p, i);
            assert(hd.subrange(i, i + 1)[0] == hd[i]);
            assert(hd[i] == host[i + 1]);
        }
    }
}

/// One trust component's observation of its store.
pub struct Observation {
    /// Undeclared entries that may be integrated.
    pub proposals: Vec<Entry>,
    /// Entries whose hostname is declared with a *different* key. Security
    /// relevant: reported but never offered for integration.
    pub conflicts: Vec<Entry>,
    /// Lines that can never be declared (hashed hostnames, markers, garbage).
    pub skipped: Vec<String>,
}

/// How an entry's host names stand against the declared keys: whether one
/// of them is declared with other keys only (a conflict, which ends the
/// scan), and whether every name declares the entry's key.
pub open spec fn scan_names(d: DeclaredTrust, names: Seq<Seq<char>>, key: Seq<char>) -> (bool, bool)
    decreases names.len(),
{
    if names.len() == 0 {
        (false, true)
    } else {
        let ks = d.keys(lookup_name(names[0]));
        if ks.contains(key) {
            scan_names(d, names.drop_first(), key)
        } else if ks.len() > 0 {
            (true, false)
        } else {
            (scan_names(d, names.drop_first(), key).0, false)
        }
    }
}

/// Some host name of the entry is declared, but with other keys.
pub open spec fn is_conflict(d: DeclaredTrust, e: EntryView) -> bool {
    scan_names(d, e.host_names, e.key_text).0
}

/// The entry is no conflict and some host name does not declare its key.
pub open spec fn is_proposal(d: DeclaredTrust, e: EntryView) -> bool {
    !scan_names(d, e.host_names, e.key_text).0 && !scan_names(d, e.host_names, e.key_text).1
}

pub open spec fn proposal_fn(d: DeclaredTrust) -> spec_fn(int, EntryView) -> Seq<EntryView> {
    |i: int, e: EntryView|
        if is_proposal(d, e) {
            seq![e]
        } else {
            Seq::empty()
        }
}

pub open spec fn conflict_fn(d: DeclaredTrust) -> spec_fn(int, EntryView) -> Seq<EntryView> {
    |i: int, e: EntryView|
        if is_conflict(d, e) {
            seq![e]
        } else {
            Seq::empty()
        }
}

/// An entry is a conflict, a proposal, or fully declared, never two of
/// these.
pub proof fn lemma_entry_classes(d: DeclaredTrust, e: EntryView)
    ensures
        !(is_conflict(d, e) && is_proposal(d, e)),
        !is_conflict(d, e) && !is_proposal(d, e) ==> scan_names(d, e.host_names, e.key_text).1,
{
}

/// The name is declared, and with other keys only.
pub open spec fn declared_otherwise(d: DeclaredTrust, name: Seq<char>, key: Seq<char>) -> bool {
    d.keys(lookup_name(name)).len() > 0 && !d.keys(lookup_name(name)).contains(key)
}

/// The scan of an entry's names in direct terms: it finds a conflict
/// exactly when some name is declared with other keys only, and, finding
/// none, it reports the entry fully declared exactly when every name
/// declares the entry's key.
pub proof fn lemma_scan_names_direct(d: DeclaredTrust, names: Seq<Seq<char>>, key: Seq<char>)
    ensures
        scan_names(d, names, key).0 <==> exists|i: int|
            0 <= i < names.len() && #[trigger] declared_otherwise(d, names[i], key),
        !scan_names(d, names, key).0 ==> (scan_names(d, names, key).1 <==> forall|i: int|
            0 <= i < names.len() ==> #[trigger] d.keys(lookup_name(names[i])).contains(key)),
    decreases names.len(),
{
    if names.len() > 0 {
        let rest = names.drop_first();
        lemma_scan_names_direct(d, rest, key);
        assert forall|i: int| 0 <= i < rest.len() implies rest[i] == names[i + 1] by {}
        if exists|i: int| 0 <= i < names.len() && #[trigger] declared_otherwise(d, names[i], key) {
            let i = choose|i: int| 0 <= i < names.len() && #[trigger] declared_otherwise(d, names[i], key);
            if i > 0 {
                assert(declared_otherwise(d, rest[i - 1], key));
            }
        }
        if exists|i: int| 0 <= i < rest.len() && #[trigger] declared_otherwise(d, rest[i], key) {
            let i = choose|i: int| 0 <= i < rest.len() && #[trigger] declared_otherwise(d, rest[i], key);
            assert(declared_otherwise(d, names[i + 1], key));
        }
        if forall|i: int| 0 <= i < rest.len() ==> #[trigger] d.keys(lookup_name(rest[i])).contains(key) {
            if d.keys(lookup_name(names[0])).contains(key) {
                assert forall|i: int| 0 <= i < names.len() implies #[trigger] d.keys(
                    lookup_name(names[i]),
                ).contains(key) by {
                    if i > 0 {
                        assert(d.keys(lookup_name(rest[i - 1])).contains(key));
                    }
                }
            }
        }
        if forall|i: int| 0 <= i < names.len() ==> #[trigger] d.keys(lookup_name(names[i])).contains(key) {
            assert(d.keys(lookup_name(names[0])).contains(key));
            assert forall|i: int| 0 <= i < rest.len() implies #[trigger] d.keys(
                lookup_name(rest[i]),
            ).contains(key) by {
                assert(d.keys(lookup_name(names[i + 1])).contains(key));
            }
        }
        if !d.keys(lookup_name(names[0])).contains(key) && d.keys(lookup_name(names[0])).len() > 0 {
            assert(declared_otherwise(d, names[0], key));
        }
    }
}

/// An entry is a conflict exactly when one of its names is declared with
/// other keys only, and a proposal exactly when none is and some name does
/// not declare its key.
pub proof fn lemma_entry_classes_direct(d: DeclaredTrust, e: EntryView)
    ensures
        is_conflict(d, e) <==> exists|i: int|
            0 <= i < e.host_names.len() && #[trigger] declared_otherwise(d, e.host_names[i], e.key_text),
        is_proposal(d, e) <==> !is_conflict(d, e) && exists|i: int|
            0 <= i < e.host_names.len() && !#[trigger] d.keys(lookup_name(e.host_names[i])).contains(
                e.key_text,
            ),
{
    lemma_scan_names_direct(d, e.host_names, e.key_text);
}

/// An entry each of whose host names declares its key is neither offered
/// nor reported: it is fully declared.
pub proof fn lemma_declared_entry_is_quiet(d: DeclaredTrust, names: Seq<Seq<char>>, key: Seq<char>)
    requires
        forall|i: int| 0 <= i < names.len() ==> #[trigger] d.keys(lookup_name(names[i])).contains(key),
    ensures
        scan_names(d, names, key) == (false, true),
    decreases names.len(),
{
    if names.len() > 0 {
        assert(d.keys(lookup_name(names[0])).contains(key));
        assert forall|i: int| 0 <= i < names.drop_first().len() implies #[trigger] d.keys(
            lookup_name(names.drop_first()[i]),
        ).contains(key) by {
            assert(names.drop_first()[i] == names[i + 1]);
        }
        lemma_declared_entry_is_quiet(d, names.drop_first(), key);
    }
}

/// An entry one of whose host names is declared, but with other keys only,
/// and whose earlier names all declare its key, is a conflict.
pub proof fn lemma_other_key_is_conflict(d: DeclaredTrust, names: Seq<Seq<char>>, key: Seq<char>, k: int)
    requires
        0 <= k < names.len(),
        forall|i: int| 0 <= i < k ==> #[trigger] d.keys(lookup_name(names[i])).contains(key),
        d.keys(lookup_name(names[k])).len() > 0,
        !d.keys(lookup_name(names[k])).contains(key),
    ensures
        scan_names(d, names, key).0,
    decreases k,
{
    if k > 0 {
        assert(d.keys(lookup_name(names[0])).contains(key));
        assert forall|i: int| 0 <= i < k - 1 implies #[trigger] d.keys(
            lookup_name(names.drop_first()[i]),
        ).contains(key) by {
            assert(names.drop_first()[i] == names[i + 1]);
        }
        assert(names.drop_first()[k - 1] == names[k]);
        lemma_other_key_is_conflict(d, names.drop_first(), key, k - 1);
    }
}

fn contains_key(keys: &[String], key: &str) -> (r: bool)
    ensures
        r == str_views(keys@).contains(key@),
{
    let mut i: usize = 0;
    while i < keys.len()
        invariant
            0 <= i <= keys@.len(),
            forall|j: int| 0 <= j < i ==> keys@[j]@ != key@,
        decreases keys@.len() - i,
    {
        if str_eq(keys[i].as_str(), key) {
            assert(str_views(keys@)[i as int] == key@);
            return true;
        }
        i += 1;
    }
    assert forall|j: int| 0 <= j < str_views(keys@).len() implies str_views(keys@)[j] != key@ by {
        assert(str_views(keys@)[j] == keys@[j]@);
    }
    false
}

/// Whether an entry conflicts with the declared keys, and whether all its
/// names declare its key.
fn scan_entry(declared: &DeclaredTrust, entry: &Entry) -> (r: (bool, bool))
    ensures
        r == scan_names(*declared, entry@.host_names, entry@.key_text),
{
    let ghost names = entry@.host_names;
    let ghost key = entry@.key_text;
    let mut all_declared = true;
    let mut j: usize = 0;
    assert(names.skip(0) =~= names);
    while j < entry.host_names.len()
        invariant
            names == entry@.host_names,
            key == entry@.key_text,
            0 <= j <= names.len(),
            scan_names(*declared, names, key) == if all_declared {
                scan_names(*declared, names.skip(j as int), key)
            } else {
                (scan_names(*declared, names.skip(j as int), key).0, false)
            },
        decreases names.len() - j,
    {
        let ghost rest = names.skip(j as int);
        assert(rest[0] == entry.host_names@[j as int]@);
        assert(rest.drop_first() =~= names.skip(j + 1));
        let keys = declared.keys_for(entry.host_names[j].as_str());
        if contains_key(keys, entry.key_text.as_str()) {
            j += 1;
            continue;
        }
        all_declared = false;
        if keys.len() > 0 {
            return (true, false);
        }
        j += 1;
    }
    assert(names.skip(j as int) =~= Seq::<Seq<char>>::empty());
    (false, all_declared)
}

impl OpenSshKnownHosts {
    /// Classifies the entries of a known_hosts store against the declared
    /// trust: conflicts, proposals, and the lines the store could not offer.
    pub fn observe_entries(&self, entries: Vec<Entry>, skipped: Vec<String>, declared: &DeclaredTrust) -> (r: Observation)
        ensures
            r.proposals@.map_values(|e: Entry| e@) == flat_map(
                entries@.map_values(|e: Entry| e@),
                proposal_fn(*declared),
            ),
            r.conflicts@.map_values(|e: Entry| e@) == flat_map(
                entries@.map_values(|e: Entry| e@),
                conflict_fn(*declared),
            ),
            r.skipped@ == skipped@,
    {
        let ghost es = entries@.map_values(|e: Entry| e@);
        let ghost pf = proposal_fn(*declared);
        let ghost cf = conflict_fn(*declared);
        let mut proposals: Vec<Entry> = Vec::new();
        let mut conflicts: Vec<Entry> = Vec::new();
        let mut i: usize = 0;
        while i < entries.len()
            invariant
                es == entries@.map_values(|e: Entry| e@),
                pf == proposal_fn(*declared),
                cf == conflict_fn(*declared),
                0 <= i <= entries@.len(),
                proposals@.map_values(|e: Entry| e@) == flat_map(es.take(i as int), pf),
                conflicts@.map_values(|e: Entry| e@) == flat_map(es.take(i as int), cf),
            decreases entries@.len() - i,
        {
            proof {
                lemma_flat_map_step(es, pf, i as int);
                lemma_flat_map_step(es, cf, i as int);
            }
            let ghost bp = proposals@.map_values(|e: Entry| e@);
            let ghost bc = conflicts@.map_values(|e: Entry| e@);
            let entry = &entries[i];
            let (conflict, all_declared) = scan_entry(declared, entry);
            if conflict {
                conflicts.push(entry.clone_entry());
            } else if !all_declared {
                proposals.push(entry.clone_entry());
            }
            assert(proposals@.map_values(|e: Entry| e@) =~= bp + pf(i as int, es[i as int]));
            assert(conflicts@.map_values(|e: Entry| e@) =~= bc + cf(i as int, es[i as int]));
            i += 1;
        }
        proof {
            lemma_flat_map_all(es, pf);
            lemma_flat_map_all(es, cf);
        }
        Observation { proposals, conflicts, skipped }
    }
}

} // verus!
