//! Network values: IP addresses, CIDR blocks, subnet membership and DNS
//! hostnames.
use crate::text::{
    chars_of, find, find_chars, is_ascii_alnum, lemma_split_nonempty, split_char, split_chars,
    views,
};
use vstd::prelude::*;

verus! {

/// An IP address: its family and its bits (most significant first).
#[derive(Debug, Clone, Copy, PartialEq, Eq, Structural)]
pub enum IpValue {
    V4(u32),
    V6(u128),
}

/// What `core::net::IpAddr`'s `FromStr` makes of a string: the address, or
/// nothing where the text is not an IPv4 or IPv6 address.
pub uninterp spec fn ip_parse(s: Seq<char>) -> Option<IpValue>;

/// `str::parse::<IpAddr>` (the address types of `core::net`, which parse
/// text and do no I/O). The claim is only that the result is a function of
/// the text; its bits are handed over unchanged.
#[verifier::external_body]
pub(crate) fn parse_ip(s: &str) -> (r: Option<IpValue>)
    ensures
        r == ip_parse(s@),
{
    match s.parse::<core::net::IpAddr>() {
        Ok(core::net::IpAddr::V4(a)) => Some(IpValue::V4(u32::from(a))),
        Ok(core::net::IpAddr::V6(a)) => Some(IpValue::V6(u128::from(a))),
        Err(_) => None,
    }
}

/// The widest prefix of an address family.
pub open spec fn max_prefix(a: IpValue) -> u8 {
    match a {
        IpValue::V4(_) => 32,
        IpValue::V6(_) => 128,
    }
}

pub open spec fn is_digit(c: char) -> bool {
    '0' <= c && c <= '9'
}

/// The value of a string of decimal digits.
pub open spec fn digits_value(s: Seq<char>) -> nat
    decreases s.len(),
{
    if s.len() == 0 {
        0
    } else {
        digits_value(s.drop_last()) * 10 + ((s.last() as u32) - ('0' as u32)) as nat
    }
}

/// The text after an optional leading `+`.
pub open spec fn unsigned_digits(s: Seq<char>) -> Seq<char> {
    if s.len() > 0 && s[0] == '+' {
        s.drop_first()
    } else {
        s
    }
}

pub open spec fn all_digits(d: Seq<char>) -> bool {
    forall|i: int| 0 <= i < d.len() ==> is_digit(#[trigger] d[i])
}

/// `u8`'s `FromStr`: an optional `+`, then one or more decimal digits whose
/// value fits in a byte.
pub open spec fn u8_parse(s: Seq<char>) -> Option<u8> {
    let d = unsigned_digits(s);
    if d.len() > 0 && all_digits(d) && digits_value(d) <= 255 {
        Some(digits_value(d) as u8)
    } else {
        None
    }
}

/// `address/prefix` with a parseable address and a prefix no wider than the
/// family allows. The split is at the first `/`.
pub open spec fn cidr_parse(s: Seq<char>) -> Option<(IpValue, u8)> {
    match find(s, seq!['/']) {
        Some(k) => match (ip_parse(s.take(k)), u8_parse(s.skip(k + 1))) {
            (Some(a), Some(p)) => if p <= max_prefix(a) {
                Some((a, p))
            } else {
                None
            },
            _ => None,
        },
        None => None,
    }
}

/// A port: one or more decimal digits whose value fits in 16 bits.
pub open spec fn valid_port(s: Seq<char>) -> bool {
    s.len() > 0 && all_digits(s) && digits_value(s) <= 65535
}

/// An endpoint that needs no name resolution: `a.b.c.d:port` with an IPv4
/// address, or `[v6]:port` with an IPv6 address.
pub open spec fn ip_endpoint(s: Seq<char>) -> bool {
    if s.len() > 0 && s[0] == '[' {
        match find(s, seq![']']) {
            Some(k) => {
                &&& ip_parse(s.subrange(1, k)) matches Some(IpValue::V6(_))
                &&& k + 1 < s.len()
                &&& s[k + 1] == ':'
                &&& valid_port(s.skip(k + 2))
            },
            None => false,
        }
    } else {
        match find(s, seq![':']) {
            Some(k) => {
                &&& ip_parse(s.take(k)) matches Some(IpValue::V4(_))
                &&& valid_port(s.skip(k + 1))
            },
            None => false,
        }
    }
}

/// The network mask of an IPv4 prefix.
pub open spec fn mask_v4(prefix: u8) -> u32 {
    if prefix == 0 {
        0
    } else {
        u32::MAX << ((32 - prefix) as u32)
    }
}

/// The network mask of an IPv6 prefix.
pub open spec fn mask_v6(prefix: u8) -> u128 {
    if prefix == 0 {
        0
    } else {
        u128::MAX << ((128 - prefix) as u128)
    }
}

/// `address` lies in `network/prefix`: same family, and the bits under the
/// mask agree.
pub open spec fn in_subnet(address: IpValue, network: IpValue, prefix: u8) -> bool {
    match (address, network) {
        (IpValue::V4(a), IpValue::V4(n)) => a & mask_v4(prefix) == n & mask_v4(prefix),
        (IpValue::V6(a), IpValue::V6(n)) => a & mask_v6(prefix) == n & mask_v6(prefix),
        _ => false,
    }
}

/// A DNS label: 1 to 63 characters, letters, digits and hyphens, not
/// starting or ending with a hyphen.
pub open spec fn valid_label(l: Seq<char>) -> bool {
    &&& l.len() > 0
    &&& l.len() <= 63
    &&& l[0] != '-'
    &&& l.last() != '-'
    &&& forall|i: int| 0 <= i < l.len() ==> is_ascii_alnum(#[trigger] l[i]) || l[i] == '-'
}

/// A DNS hostname: at most 253 characters, no leading or trailing dot, and
/// every dot-separated label valid.
pub open spec fn valid_hostname(s: Seq<char>) -> bool {
    &&& s.len() > 0
    &&& s.len() <= 253
    &&& s[0] != '.'
    &&& s.last() != '.'
    &&& forall|i: int|
        0 <= i < split_char(s, '.').len() ==> valid_label(#[trigger] split_char(s, '.')[i])
}

/// Parses a byte-sized decimal number (`str::parse::<u8>`).
pub fn parse_u8_chars(s: &[char]) -> (r: Option<u8>)
    ensures
        r == u8_parse(s@),
{
    let start: usize = if s.len() > 0 && s[0] == '+' { 1 } else { 0 };
    let ghost d = unsigned_digits(s@);
    assert(d == s@.skip(start as int));
    if start == s.len() {
        assert(d.len() == 0);
        return None;
    }
    let mut value: u32 = 0;
    let mut i: usize = start;
    while i < s.len()
        invariant
            start <= i <= s@.len(),
            d == s@.skip(start as int),
            d == unsigned_digits(s@),
            forall|j: int| start <= j < i ==> is_digit(#[trigger] s@[j]),
            value == if digits_value(s@.subrange(start as int, i as int)) <= 255 {
                digits_value(s@.subrange(start as int, i as int))
            } else {
                256
            },
        decreases s@.len() - i,
    {
        let c = s[i];
        if !('0' <= c && c <= '9') {
            assert(d[i - start] == c);
            assert(!is_digit(d[i - start]));
            assert(!all_digits(d));
            return None;
        }
        let ghost prev = s@.subrange(start as int, i as int);
        assert(s@.subrange(start as int, i + 1).drop_last() == prev);
        let digit: u32 = (c as u32) - ('0' as u32);
        if value <= 255 {
            value = value * 10 + digit;
            if value > 255 {
                value = 256;
            }
        }
        i += 1;
    }
    assert(s@.subrange(start as int, s@.len() as int) == d);
    assert forall|j: int| 0 <= j < d.len() implies is_digit(#[trigger] d[j]) by {
        assert(d[j] == s@[j + start]);
    }
    if value <= 255 {
        Some(value as u8)
    } else {
        None
    }
}

/// Parses `address/prefix` (CIDR notation) into an address and prefix
/// length, rejecting prefixes wider than the address family.
pub fn parse_cidr(cidr: &str) -> (r: Option<(IpValue, u8)>)
    ensures
        r == cidr_parse(cidr@),
{
    let v = chars_of(cidr);
    let slash = vec!['/'];
    assert(slash@ == seq!['/']);
    match find_chars(&v, &slash) {
        None => None,
        Some(k) => {
            proof {
                crate::text::lemma_find_some(v@, slash@, k as int);
                assert(crate::text::occurs_at(v@, slash@, k as int));
                assert(slash@.len() == 1);
                assert(k + 1 <= v@.len());
                assert(v@.len() == v.len());
            }
            let address = crate::text::string_of_range(&v, 0, k);
            let ghost whole = v@;
            assert(address@ == whole.take(k as int));
            let prefix_chars = slice_from(&v, k + 1);
            let address_value = parse_ip(address.as_str());
            let prefix_value = parse_u8_chars(&prefix_chars);
            match (address_value, prefix_value) {
                (Some(a), Some(p)) => {
                    let max: u8 = match a {
                        IpValue::V4(_) => 32,
                        IpValue::V6(_) => 128,
                    };
                    if p <= max {
                        Some((a, p))
                    } else {
                        None
                    }
                },
                _ => None,
            }
        },
    }
}

/// The characters of `v` from position `from` on.
pub fn slice_from(v: &[char], from: usize) -> (r: Vec<char>)
    requires
        from <= v@.len(),
    ensures
        r@ == v@.skip(from as int),
{
    let mut r: Vec<char> = Vec::new();
    let mut i: usize = from;
    while i < v.len()
        invariant
            from <= i <= v@.len(),
            r@ == v@.subrange(from as int, i as int),
        decreases v@.len() - i,
    {
        r.push(v[i]);
        assert(v@.subrange(from as int, i + 1) == v@.subrange(from as int, i as int).push(v@[i as int]));
        i += 1;
    }
    assert(v@.subrange(from as int, v@.len() as int) == v@.skip(from as int));
    r
}

/// The two addresses are of one family.
pub open spec fn same_family(a: IpValue, b: IpValue) -> bool {
    max_prefix(a) == max_prefix(b)
}

/// Whether the characters form a port number.
pub fn valid_port_chars(s: &[char]) -> (r: bool)
    ensures
        r == valid_port(s@),
{
    if s.len() == 0 {
        return false;
    }
    let mut value: u32 = 0;
    let mut i: usize = 0;
    while i < s.len()
        invariant
            0 <= i <= s@.len(),
            forall|j: int| 0 <= j < i ==> is_digit(#[trigger] s@[j]),
            value == if digits_value(s@.take(i as int)) <= 65535 {
                digits_value(s@.take(i as int))
            } else {
                65536
            },
        decreases s@.len() - i,
    {
        let c = s[i];
        if !('0' <= c && c <= '9') {
            assert(!is_digit(s@[i as int]));
            assert(!all_digits(s@));
            return false;
        }
        assert(s@.take(i + 1).drop_last() == s@.take(i as int));
        assert(s@.take(i + 1).last() == c);
        let digit: u32 = (c as u32) - ('0' as u32);
        if value <= 65535 {
            value = value * 10 + digit;
            if value > 65535 {
                value = 65536;
            }
        }
        i += 1;
    }
    assert(s@.take(s@.len() as int) == s@);
    value <= 65535
}

/// Whether an endpoint is an IP address with a port (see [`ip_endpoint`]).
pub fn is_ip_endpoint(endpoint: &str) -> (r: bool)
    ensures
        r == ip_endpoint(endpoint@),
{
    let v = chars_of(endpoint);
    if v.len() > 0 && v[0] == '[' {
        let close = vec![']'];
        assert(close@ == seq![']']);
        match find_chars(&v, &close) {
            None => false,
            Some(k) => {
                proof {
                    crate::text::lemma_find_some(v@, close@, k as int);
                    assert(v@.subrange(k as int, k + 1)[0] == v@[k as int]);
                }
                let host = crate::text::string_of_range(&v, 1, k);
                match parse_ip(host.as_str()) {
                    Some(IpValue::V6(_)) => {
                        if k + 1 < v.len() && v[k + 1] == ':' {
                            let port = slice_from(&v, k + 2);
                            valid_port_chars(&port)
                        } else {
                            false
                        }
                    },
                    _ => false,
                }
            },
        }
    } else {
        let colon = vec![':'];
        assert(colon@ == seq![':']);
        match find_chars(&v, &colon) {
            None => false,
            Some(k) => {
                proof {
                    crate::text::lemma_find_some(v@, colon@, k as int);
                }
                let host = crate::text::string_of_range(&v, 0, k);
                assert(host@ == v@.take(k as int));
                match parse_ip(host.as_str()) {
                    Some(IpValue::V4(_)) => {
                        let port = slice_from(&v, k + 1);
                        valid_port_chars(&port)
                    },
                    _ => false,
                }
            },
        }
    }
}

/// Whether `address` lies inside `network/prefix`. Addresses of different
/// families never do; within one family the prefix is at most the family's
/// width.
pub fn address_in_subnet(address: IpValue, network: IpValue, prefix: u8) -> (r: bool)
    requires
        same_family(address, network) ==> prefix <= max_prefix(network),
    ensures
        r == in_subnet(address, network, prefix),
{
    match (address, network) {
        (IpValue::V4(a), IpValue::V4(n)) => {
            let mask: u32 = if prefix == 0 {
                0
            } else {
                u32::MAX << ((32 - prefix) as u32)
            };
            a & mask == n & mask
        },
        (IpValue::V6(a), IpValue::V6(n)) => {
            let mask: u128 = if prefix == 0 {
                0
            } else {
                u128::MAX << ((128 - prefix) as u128)
            };
            a & mask == n & mask
        },
        _ => false,
    }
}

/// The host prefix length of a single address: 32 for IPv4, 128 for IPv6,
/// nothing when the text is not an address.
pub open spec fn address_prefix_len_spec(s: Seq<char>) -> Option<u8> {
    match ip_parse(s) {
        Some(a) => Some(max_prefix(a)),
        None => None,
    }
}

pub fn address_prefix_len(address: &str) -> (r: Option<u8>)
    ensures
        r == address_prefix_len_spec(address@),
{
    match parse_ip(address) {
        Some(IpValue::V4(_)) => Some(32),
        Some(IpValue::V6(_)) => Some(128),
        None => None,
    }
}

/// Whether `l` is a valid DNS label.
pub fn valid_label_exec(l: &[char]) -> (r: bool)
    ensures
        r == valid_label(l@),
{
    let n = l.len();
    if n == 0 || n > 63 || l[0] == '-' || l[n - 1] == '-' {
        return false;
    }
    let mut i: usize = 0;
    while i < n
        invariant
            n == l@.len(),
            0 <= i <= n,
            forall|j: int| 0 <= j < i ==> is_ascii_alnum(#[trigger] l@[j]) || l@[j] == '-',
        decreases n - i,
    {
        let c = l[i];
        if !(('a' <= c && c <= 'z') || ('A' <= c && c <= 'Z') || ('0' <= c && c <= '9') || c
            == '-') {
            return false;
        }
        i += 1;
    }
    true
}

/// Whether `value` is a valid DNS hostname.
pub fn valid_hostname_exec(value: &str) -> (r: bool)
    ensures
        r == valid_hostname(value@),
{
    let v = chars_of(value);
    let n = v.len();
    if n == 0 || n > 253 || v[0] == '.' || v[n - 1] == '.' {
        return false;
    }
    let labels = split_chars(&v, '.');
    let mut i: usize = 0;
    while i < labels.len()
        invariant
            v@ == value@,
            views(labels@) == split_char(v@, '.'),
            0 <= i <= labels@.len(),
            forall|j: int| 0 <= j < i ==> valid_label(#[trigger] split_char(v@, '.')[j]),
        decreases labels@.len() - i,
    {
        assert(views(labels@)[i as int] == labels@[i as int]@);
        if !valid_label_exec(&labels[i]) {
            assert(!valid_label(split_char(v@, '.')[i as int]));
            return false;
        }
        i += 1;
    }
    true
}

} // verus!
