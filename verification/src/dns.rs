//! DNS zone membership: which declared zone an FQDN belongs to and its owner
//! name relative to that zone.
use crate::text::{chars_of, ends_with, split_char, split_chars, views};
use crate::topology::Domains;
use vstd::prelude::*;

verus! {

/// `fqdn` is the zone apex or lies below it at a label boundary.
pub open spec fn in_zone(fqdn: Seq<char>, zone: Seq<char>) -> bool {
    fqdn == zone || ends_with(fqdn, seq!['.'] + zone)
}

/// The zones DNS intents are checked against: the managed zones, or all
/// zones when no managed zone is declared.
pub open spec fn zones_in_use(d: Domains) -> Seq<Seq<char>> {
    if d.managed_zones@.len() == 0 {
        d.zones@.map_values(|z: String| z@)
    } else {
        d.managed_zones@.map_values(|z: String| z@)
    }
}

/// The number of dot-separated labels of a name.
pub open spec fn label_count(z: Seq<char>) -> nat {
    split_char(z, '.').len()
}

/// The position of the zone `fqdn` belongs to with the most labels; among
/// equally long matches the later one (`Iterator::max_by_key`).
pub open spec fn best_zone(zones: Seq<Seq<char>>, fqdn: Seq<char>) -> Option<int>
    decreases zones.len(),
{
    if zones.len() == 0 {
        None
    } else {
        let prev = best_zone(zones.drop_last(), fqdn);
        let last = zones.len() - 1;
        if in_zone(fqdn, zones.last()) {
            match prev {
                Some(k) => if label_count(zones[k]) <= label_count(zones.last()) {
                    Some(last)
                } else {
                    Some(k)
                },
                None => Some(last),
            }
        } else {
            prev
        }
    }
}

pub proof fn lemma_best_zone(zones: Seq<Seq<char>>, fqdn: Seq<char>)
    ensures
        match best_zone(zones, fqdn) {
            Some(k) => 0 <= k < zones.len() && in_zone(fqdn, zones[k]),
            None => forall|i: int| 0 <= i < zones.len() ==> !in_zone(fqdn, #[trigger] zones[i]),
        },
    decreases zones.len(),
{
    if zones.len() > 0 {
        lemma_best_zone(zones.drop_last(), fqdn);
        if best_zone(zones, fqdn) is None {
            assert forall|i: int| 0 <= i < zones.len() implies !in_zone(
                fqdn,
                #[trigger] zones[i],
            ) by {
                if i < zones.len() - 1 {
                    assert(zones[i] == zones.drop_last()[i]);
                }
            }
        }
    }
}

/// Whether an FQDN belongs to a DNS zone.
pub fn host_in_zone_exec(fqdn: &str, zone: &str) -> (r: bool)
    ensures
        r == in_zone(fqdn@, zone@),
{
    let f = chars_of(fqdn);
    let z = chars_of(zone);
    if crate::text::chars_eq(&f, &z) {
        return true;
    }
    let mut dz: Vec<char> = Vec::new();
    dz.push('.');
    let mut i: usize = 0;
    while i < z.len()
        invariant
            0 <= i <= z@.len(),
            dz@ == seq!['.'] + z@.take(i as int),
        decreases z@.len() - i,
    {
        dz.push(z[i]);
        assert(z@.take(i + 1) == z@.take(i as int).push(z@[i as int]));
        i += 1;
    }
    assert(z@.take(z@.len() as int) == z@);
    if dz.len() > f.len() {
        return false;
    }
    let start = f.len() - dz.len();
    let r = crate::text::occurs_at_exec(&f, &dz, start);
    r
}

/// The number of dot-separated labels of a name.
pub fn label_count_exec(z: &str) -> (r: usize)
    ensures
        r == label_count(z@),
{
    let v = chars_of(z);
    let parts = split_chars(&v, '.');
    assert(views(parts@).len() == parts@.len());
    parts.len()
}

/// The zones checked against: managed zones, else all zones.
pub fn zones_in_use_exec(d: &Domains) -> (r: &Vec<String>)
    ensures
        r@.map_values(|z: String| z@) == zones_in_use(*d),
{
    if d.managed_zones.len() == 0 {
        &d.zones
    } else {
        &d.managed_zones
    }
}

/// The position among `zones` of the zone that `fqdn` belongs to with the
/// most labels, the later one on ties.
pub fn best_zone_exec(zones: &Vec<String>, fqdn: &str) -> (r: Option<usize>)
    ensures
        match r {
            Some(k) => best_zone(zones@.map_values(|z: String| z@), fqdn@) == Some(k as int),
            None => best_zone(zones@.map_values(|z: String| z@), fqdn@) is None,
        },
{
    let ghost zs = zones@.map_values(|z: String| z@);
    let mut best: Option<usize> = None;
    let mut best_count: usize = 0;
    let mut i: usize = 0;
    while i < zones.len()
        invariant
            zs == zones@.map_values(|z: String| z@),
            0 <= i <= zones@.len(),
            match best {
                Some(k) => best_zone(zs.take(i as int), fqdn@) == Some(k as int) && k < i
                    && best_count == label_count(zs[k as int]),
                None => best_zone(zs.take(i as int), fqdn@) is None,
            },
        decreases zones@.len() - i,
    {
        assert(zs.take(i + 1).drop_last() =~= zs.take(i as int));
        if host_in_zone_exec(fqdn, zones[i].as_str()) {
            let c = label_count_exec(zones[i].as_str());
            match best {
                Some(k) => {
                    assert(zs.take(i as int)[k as int] == zs[k as int]);
                    if best_count <= c {
                        best = Some(i);
                        best_count = c;
                    }
                },
                None => {
                    best = Some(i);
                    best_count = c;
                },
            }
        }
        i += 1;
    }
    assert(zs.take(zones@.len() as int) =~= zs);
    best
}

/// The zone chosen for an FQDN contains it and has at least as many labels
/// as every other zone that contains it, and more than every later one.
pub proof fn lemma_best_zone_longest(zones: Seq<Seq<char>>, fqdn: Seq<char>)
    ensures
        best_zone(zones, fqdn) matches Some(k) ==> forall|i: int|
            0 <= i < zones.len() && in_zone(fqdn, #[trigger] zones[i]) ==> label_count(zones[i])
                <= label_count(zones[k]) && (i > k ==> label_count(zones[i]) < label_count(
                zones[k],
            )),
    decreases zones.len(),
{
    if zones.len() > 0 {
        let init = zones.drop_last();
        lemma_best_zone_longest(init, fqdn);
        lemma_best_zone(init, fqdn);
        lemma_best_zone(zones, fqdn);
        if let Some(k) = best_zone(zones, fqdn) {
            assert forall|i: int|
                0 <= i < zones.len() && in_zone(fqdn, #[trigger] zones[i]) implies label_count(
                zones[i],
            ) <= label_count(zones[k]) && (i > k ==> label_count(zones[i]) < label_count(
                zones[k],
            )) by {
                if i < zones.len() - 1 {
                    assert(zones[i] == init[i]);
                    if let Some(p) = best_zone(init, fqdn) {
                        assert(init[p] == zones[p]);
                    }
                }
            }
        }
    }
}

} // verus!
