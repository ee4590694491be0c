//! Validation of names, DNS entries, addresses and ports, and the tables
//! that listings print.
use crate::errors::{AwgctlError, Result};
use crate::ip_text::parse_ip;
use crate::net::{IpAddress, IpNet};
use crate::text::{
    first_false, lemma_first_false_at, lemma_first_false_none, append_spaces, append_string,
    chars_of, is_alnum, is_alnum_exec, push_char, spaces, split_on,
    string_eq, views,
};
use crate::ip_text::{parse_ip_chars, split_chars, parts_view};
use vstd::prelude::*;

verus! {

/// Preallocated capacity of the list of servers.
pub const SERVER_CAPACITY: usize = 4;

/// Preallocated capacity of the list of clients of a server.
pub const CLIENT_CAPACITY: usize = 8;

/// First octet of the automatically assigned server subnets (`10.0.X.0/24`).
pub const FIRST_OCT: u8 = 10;

/// Second octet of the automatically assigned server subnets (`10.0.X.0/24`).
pub const SECOND_OCT: u8 = 0;

/// First port tried when a listen port is assigned automatically.
pub const PORT_RANGE_START: u16 = 51820;

/// Last port tried when a listen port is assigned automatically.
pub const PORT_RANGE_END: u16 = 51900;

// ---------------------------------------------------------------------------
// Names and DNS entries
// ---------------------------------------------------------------------------

/// A label of a host name: not empty, ASCII letters, digits and `-`, not
/// beginning or ending with `-`.
pub open spec fn valid_label(l: Seq<char>) -> bool {
    &&& l.len() > 0
    &&& l[0] != '-'
    &&& l.last() != '-'
    &&& forall|i: int| 0 <= i < l.len() ==> is_alnum(#[trigger] l[i]) || l[i] == '-'
}

/// A host name: not empty, and every `.`-separated label valid.
pub open spec fn valid_host_name(s: Seq<char>) -> bool {
    let labels = split_on(s, '.');
    s.len() > 0 && forall|i: int| 0 <= i < labels.len() ==> valid_label(#[trigger] labels[i])
}

/// A DNS entry is an IP address or a host name.
pub open spec fn valid_dns_entry(s: Seq<char>) -> bool {
    parse_ip(s) is Some || valid_host_name(s)
}

/// A name of a server or client: not empty, and only ASCII letters and
/// digits, `-` and `_`.
pub open spec fn valid_name_chars(s: Seq<char>) -> bool {
    s.len() > 0 && forall|i: int| 0 <= i < s.len() ==> is_alnum(#[trigger] s[i]) || s[i] == '-'
        || s[i] == '_'
}

pub open spec fn name_taken(name: Seq<char>, existing: Seq<String>) -> bool {
    exists|i: int| 0 <= i < existing.len() && (#[trigger] existing[i])@ == name
}

/// A name is valid exactly when it is not empty and holds only ASCII
/// letters of either case, ASCII digits, `-` and `_`.
pub proof fn lemma_valid_name_ascii(s: Seq<char>)
    ensures
        valid_name_chars(s) <==> s.len() > 0 && forall|i: int|
            0 <= i < s.len() ==> ('a' <= #[trigger] s[i] && s[i] <= 'z') || ('A' <= s[i] && s[i]
                <= 'Z') || ('0' <= s[i] && s[i] <= '9') || s[i] == '-' || s[i] == '_',
{
}

/// A label of a host name is valid exactly when it is not empty, neither
/// begins nor ends with `-`, and holds only ASCII letters of either case,
/// ASCII digits and `-`.
pub proof fn lemma_valid_label_ascii(l: Seq<char>)
    ensures
        valid_label(l) <==> l.len() > 0 && l[0] != '-' && l[l.len() - 1] != '-' && forall|i: int|
            0 <= i < l.len() ==> ('a' <= #[trigger] l[i] && l[i] <= 'z') || ('A' <= l[i] && l[i]
                <= 'Z') || ('0' <= l[i] && l[i] <= '9') || l[i] == '-',
{
}

/// A non-empty text whose `.`-separated labels are each non-empty, neither
/// begin nor end with `-`, and hold only ASCII letters, ASCII digits and
/// `-` is a valid DNS entry (a host name).
pub proof fn lemma_host_name_entry(s: Seq<char>)
    requires
        s.len() > 0,
        forall|k: int|
            0 <= k < split_on(s, '.').len() ==> {
                let l = #[trigger] split_on(s, '.')[k];
                &&& l.len() > 0
                &&& l[0] != '-'
                &&& l[l.len() - 1] != '-'
                &&& forall|i: int|
                    0 <= i < l.len() ==> ('a' <= #[trigger] l[i] && l[i] <= 'z') || ('A' <= l[i]
                        && l[i] <= 'Z') || ('0' <= l[i] && l[i] <= '9') || l[i] == '-'
            },
    ensures
        valid_dns_entry(s),
{
    let labels = split_on(s, '.');
    assert forall|k: int| 0 <= k < labels.len() implies valid_label(#[trigger] labels[k]) by {
        lemma_valid_label_ascii(labels[k]);
    }
}

fn valid_label_exec(l: &Vec<char>) -> (r: bool)
    ensures
        r == valid_label(l@),
{
    if l.len() == 0 || l[0] == '-' || l[l.len() - 1] == '-' {
        return false;
    }
    let mut i: usize = 0;
    while i < l.len()
        invariant
            i <= l@.len(),
            forall|k: int| 0 <= k < i ==> is_alnum(#[trigger] l@[k]) || l@[k] == '-',
        decreases l@.len() - i,
    {
        if !is_alnum_exec(l[i]) && l[i] != '-' {
            return false;
        }
        i = i + 1;
    }
    true
}

/// Whether `entry` is an IP address or a host name of non-empty labels of
/// ASCII letters, digits and inner hyphens.
pub fn is_valid_dns_entry(entry: &str) -> (r: bool)
    ensures
        r == valid_dns_entry(entry@),
{
    let v = chars_of(entry);
    if parse_ip_chars(&v).is_some() {
        return true;
    }
    if v.len() == 0 {
        return false;
    }
    let labels = split_chars(&v, '.');
    let ghost lv = parts_view(labels@);
    let mut i: usize = 0;
    while i < labels.len()
        invariant
            i <= labels@.len(),
            lv == parts_view(labels@),
            lv == split_on(v@, '.'),
            v@ == entry@,
            v@.len() > 0,
            parse_ip(v@) is None,
            forall|k: int| 0 <= k < i ==> valid_label(#[trigger] lv[k]),
        decreases labels@.len() - i,
    {
        assert(lv[i as int] == labels@[i as int]@);
        if !valid_label_exec(&labels[i]) {
            assert(!valid_label(lv[i as int]));
            return false;
        }
        i = i + 1;
    }
    true
}

pub open spec fn dns_flags(dns: Seq<String>) -> Seq<bool> {
    dns.map_values(|d: String| valid_dns_entry(d@))
}

/// The position of the first invalid DNS entry.
pub fn find_invalid_dns(dns: &Vec<String>) -> (r: Option<usize>)
    ensures
        r matches Some(i) ==> first_false(dns_flags(dns@)) == Some(i as int) && i < dns@.len(),
        r is None ==> first_false(dns_flags(dns@)) is None,
{
    let ghost f = dns_flags(dns@);
    let mut i: usize = 0;
    while i < dns.len()
        invariant
            i <= dns@.len(),
            f == dns_flags(dns@),
            forall|j: int| 0 <= j < i ==> f[j],
        decreases dns@.len() - i,
    {
        if !is_valid_dns_entry(dns[i].as_str()) {
            proof {
                lemma_first_false_at(f, i as int);
            }
            return Some(i);
        }
        i = i + 1;
    }
    proof {
        lemma_first_false_none(f);
    }
    None
}

/// Returns `dns` unchanged if every entry is valid; otherwise the first
/// invalid entry is the error.
pub fn validate_dns(dns: Vec<String>) -> (r: Result<Vec<String>>)
    ensures
        match first_false(dns_flags(dns@)) {
            None => r == Ok::<Vec<String>, AwgctlError>(dns),
            Some(i) => r == Err::<Vec<String>, AwgctlError>(AwgctlError::InvalidDnsEntry(dns@[i])),
        },
{
    let found = find_invalid_dns(&dns);
    match found {
        Some(i) => Err(AwgctlError::InvalidDnsEntry(dns[i].clone())),
        None => Ok(dns),
    }
}

/// Checks that `name` is not empty, holds only ASCII letters and digits,
/// `-` and `_`, and is not among `existing`.
pub fn validate_name(name: String, existing: &Vec<String>) -> (r: Result<String>)
    ensures
        !valid_name_chars(name@) ==> r == Err::<String, AwgctlError>(
            AwgctlError::InvalidName(name),
        ),
        valid_name_chars(name@) && name_taken(name@, existing@) ==> r == Err::<
            String,
            AwgctlError,
        >(AwgctlError::NameAlreadyExists(name)),
        valid_name_chars(name@) && !name_taken(name@, existing@) ==> r == Ok::<
            String,
            AwgctlError,
        >(name),
        name@.len() > 0 && (forall|i: int|
            0 <= i < name@.len() ==> ('a' <= #[trigger] name@[i] && name@[i] <= 'z') || ('A'
                <= name@[i] && name@[i] <= 'Z') || ('0' <= name@[i] && name@[i] <= '9') || name@[i]
                == '-' || name@[i] == '_') && !name_taken(name@, existing@) ==> r == Ok::<
            String,
            AwgctlError,
        >(name),
{
    let v = chars_of(name.as_str());
    let mut ok = v.len() > 0;
    let mut i: usize = 0;
    while i < v.len()
        invariant
            i <= v@.len(),
            v@ == name@,
            ok == (v@.len() > 0 && forall|k: int|
                0 <= k < i ==> is_alnum(#[trigger] v@[k]) || v@[k] == '-' || v@[k] == '_'),
        decreases v@.len() - i,
    {
        let c = v[i];
        if !(is_alnum_exec(c) || c == '-' || c == '_') {
            ok = false;
        }
        i = i + 1;
    }
    if !ok {
        return Err(AwgctlError::InvalidName(name));
    }
    assert(valid_name_chars(name@));
    let mut j: usize = 0;
    while j < existing.len()
        invariant
            j <= existing@.len(),
            valid_name_chars(name@),
            forall|k: int| 0 <= k < j ==> (#[trigger] existing@[k])@ != name@,
        decreases existing@.len() - j,
    {
        if string_eq(&existing[j], &name) {
            return Err(AwgctlError::NameAlreadyExists(name));
        }
        j = j + 1;
    }
    Ok(name)
}

// ---------------------------------------------------------------------------
// Addresses and ports
// ---------------------------------------------------------------------------

/// An address of a network interface of the system, with its netmask.
#[derive(Debug, Clone, Copy, PartialEq, Eq, Structural)]
pub struct InterfaceAddr {
    pub ip: IpAddress,
    pub netmask: Option<IpAddress>,
}

/// The number of one bits among the `n` low bits of `x`.
pub open spec fn ones(x: nat, n: nat) -> nat
    decreases n,
{
    if n == 0 {
        0
    } else {
        ones(x / 2, (n - 1) as nat) + x % 2
    }
}

/// The network of an interface address: an address with an IPv4 netmask
/// gives the network of its address with as long a prefix as the mask has
/// one bits; any other gives none.
pub open spec fn system_net(a: InterfaceAddr) -> Option<IpNet> {
    match a.netmask {
        Some(IpAddress::V4(m)) => {
            let prefix = ones(m as nat, 32);
            if prefix <= a.ip.bits() {
                Some(IpNet { addr: a.ip, prefix: prefix as u8 })
            } else {
                None
            }
        },
        _ => None,
    }
}

pub open spec fn system_nets(addrs: Seq<InterfaceAddr>) -> Seq<IpNet>
    decreases addrs.len(),
{
    if addrs.len() == 0 {
        Seq::empty()
    } else {
        match system_net(addrs.last()) {
            Some(n) => system_nets(addrs.drop_last()).push(n),
            None => system_nets(addrs.drop_last()),
        }
    }
}

fn count_ones(m: u32) -> (r: u8)
    ensures
        r as nat == ones(m as nat, 32),
        r <= 32,
{
    let mut x = m;
    let mut c: u8 = 0;
    let mut i: u8 = 0;
    while i < 32
        invariant
            i <= 32,
            c <= i,
            ones(m as nat, 32) == c + ones(x as nat, (32 - i) as nat),
        decreases 32 - i,
    {
        c = c + (x % 2) as u8;
        x = x / 2;
        i = i + 1;
    }
    c
}

/// The networks of the system's interface addresses that have an IPv4
/// netmask, in order.
pub fn get_system_addrs(addrs: &Vec<InterfaceAddr>) -> (r: Vec<IpNet>)
    ensures
        r@ == system_nets(addrs@),
{
    let mut r: Vec<IpNet> = Vec::new();
    let mut i: usize = 0;
    while i < addrs.len()
        invariant
            i <= addrs@.len(),
            r@ == system_nets(addrs@.take(i as int)),
        decreases addrs@.len() - i,
    {
        let a = addrs[i];
        proof {
            assert(addrs@.take(i + 1).drop_last() =~= addrs@.take(i as int));
            assert(addrs@.take(i + 1).last() == a);
        }
        match a.netmask {
            Some(IpAddress::V4(m)) => {
                let prefix = count_ones(m);
                match IpNet::new(a.ip, prefix) {
                    Some(n) => r.push(n),
                    None => {},
                }
            },
            _ => {},
        }
        i = i + 1;
    }
    assert(addrs@.take(addrs@.len() as int) =~= addrs@);
    r
}

/// Two networks overlap when one contains the other.
pub open spec fn overlaps(a: IpNet, b: IpNet) -> bool {
    a.contains_net(b) || b.contains_net(a)
}

pub open spec fn apart_flags(ua: IpNet, nets: Seq<IpNet>) -> Seq<bool> {
    nets.map_values(|n: IpNet| !overlaps(ua, n))
}

pub open spec fn overlaps_none(ua: IpNet, nets: Seq<IpNet>) -> bool {
    forall|j: int| 0 <= j < nets.len() ==> !overlaps(ua, #[trigger] nets[j])
}

/// A subnet asked for a new server overlaps neither another server's
/// subnet nor an address of the system.
pub open spec fn server_ip_ok(ua: IpNet, existing: Seq<IpNet>, sys: Seq<IpNet>) -> bool {
    overlaps_none(ua, existing) && overlaps_none(ua, sys)
}

pub open spec fn server_ip_flags(ips: Seq<IpNet>, existing: Seq<IpNet>, sys: Seq<IpNet>) -> Seq<
    bool,
> {
    ips.map_values(|ua: IpNet| server_ip_ok(ua, existing, sys))
}

/// The error for a subnet that is not free: the first configured subnet it
/// overlaps, else the first system address it overlaps.
pub open spec fn server_ip_error(ua: IpNet, existing: Seq<IpNet>, sys: Seq<IpNet>) -> AwgctlError {
    match first_false(apart_flags(ua, existing)) {
        Some(k) => AwgctlError::SubnetConfigured(existing[k]),
        None => match first_false(apart_flags(ua, sys)) {
            Some(k) => AwgctlError::SubnetInUse(sys[k]),
            None => AwgctlError::SubnetInUse(ua),
        },
    }
}

/// What `server_validate_ip` gives.
pub open spec fn server_validate_ip_spec(ips: Seq<IpNet>, existing: Seq<IpNet>, sys: Seq<IpNet>) -> Option<
    AwgctlError,
> {
    match first_false(server_ip_flags(ips, existing, sys)) {
        Some(i) => Some(server_ip_error(ips[i], existing, sys)),
        None => None,
    }
}

fn find_overlap(ua: &IpNet, nets: &Vec<IpNet>) -> (r: Option<usize>)
    ensures
        r matches Some(k) ==> first_false(apart_flags(*ua, nets@)) == Some(k as int) && k
            < nets@.len(),
        r is None ==> first_false(apart_flags(*ua, nets@)) is None,
        r is None <==> overlaps_none(*ua, nets@),
{
    let ghost f = apart_flags(*ua, nets@);
    let mut j: usize = 0;
    while j < nets.len()
        invariant
            j <= nets@.len(),
            f == apart_flags(*ua, nets@),
            forall|k: int| 0 <= k < j ==> !overlaps(*ua, #[trigger] nets@[k]),
        decreases nets@.len() - j,
    {
        if ua.contains(&nets[j]) || nets[j].contains(ua) {
            proof {
                assert forall|k: int| 0 <= k < j implies f[k] by {
                    assert(!overlaps(*ua, nets@[k]));
                }
                lemma_first_false_at(f, j as int);
            }
            return Some(j);
        }
        j = j + 1;
    }
    proof {
        assert forall|k: int| 0 <= k < f.len() implies f[k] by {
            assert(!overlaps(*ua, nets@[k]));
        }
        lemma_first_false_none(f);
    }
    None
}

/// Checks the subnets asked for a new server: each must overlap no subnet
/// of another server and no address of the system. The first subnet that
/// does gives the error.
pub fn server_validate_ip(ips: Vec<IpNet>, existing: &Vec<IpNet>, sys_addrs: &Vec<IpNet>) -> (r:
    Result<Vec<IpNet>>)
    ensures
        match server_validate_ip_spec(ips@, existing@, sys_addrs@) {
            None => r == Ok::<Vec<IpNet>, AwgctlError>(ips),
            Some(e) => r == Err::<Vec<IpNet>, AwgctlError>(e),
        },
{
    let ghost f = server_ip_flags(ips@, existing@, sys_addrs@);
    let mut i: usize = 0;
    while i < ips.len()
        invariant
            i <= ips@.len(),
            f == server_ip_flags(ips@, existing@, sys_addrs@),
            forall|j: int| 0 <= j < i ==> f[j],
        decreases ips@.len() - i,
    {
        let ua = ips[i];
        let a = find_overlap(&ua, existing);
        let b = find_overlap(&ua, sys_addrs);
        assert(ips@[i as int] == ua);
        if a.is_some() || b.is_some() {
            proof {
                lemma_first_false_at(f, i as int);
            }
            match a {
                Some(k) => {
                    return Err(AwgctlError::SubnetConfigured(existing[k]));
                },
                None => {},
            }
            match b {
                Some(k) => {
                    return Err(AwgctlError::SubnetInUse(sys_addrs[k]));
                },
                None => {},
            }
        }
        i = i + 1;
    }
    proof {
        lemma_first_false_none(f);
    }
    Ok(ips)
}

pub open spec fn port_configured(port: u16, existing: Seq<u16>) -> bool {
    exists|i: int| 0 <= i < existing.len() && existing[i] == port
}

pub fn contains_port(existing: &Vec<u16>, port: u16) -> (r: bool)
    ensures
        r == port_configured(port, existing@),
{
    let mut i: usize = 0;
    while i < existing.len()
        invariant
            i <= existing@.len(),
            forall|k: int| 0 <= k < i ==> existing@[k] != port,
        decreases existing@.len() - i,
    {
        if existing[i] == port {
            return true;
        }
        i = i + 1;
    }
    false
}

/// Checks a listen port asked for a new server: it must not be another
/// server's, and the system must let it be bound (`bindable`, the outcome of
/// a bind on `0.0.0.0`).
pub fn server_validate_port(port: u16, existing: &Vec<u16>, bindable: bool) -> (r: Result<u16>)
    ensures
        r == if port_configured(port, existing@) {
            Err(AwgctlError::PortAlreadyConfigured(port))
        } else if bindable {
            Ok(port)
        } else {
            Err(AwgctlError::PortInUse(port))
        },
{
    if contains_port(existing, port) {
        Err(AwgctlError::PortAlreadyConfigured(port))
    } else if bindable {
        Ok(port)
    } else {
        Err(AwgctlError::PortInUse(port))
    }
}

pub open spec fn addr_taken(a: IpAddress, existing: Seq<IpAddress>) -> bool {
    exists|i: int| 0 <= i < existing.len() && existing[i] == a
}

pub open spec fn in_some_net(ua: IpNet, nets: Seq<IpNet>) -> bool {
    exists|k: int| 0 <= k < nets.len() && (#[trigger] nets[k]).contains_net(ua)
}

/// An address asked for a new client is not taken and lies within a subnet
/// of the server.
pub open spec fn client_ip_ok(ua: IpNet, existing: Seq<IpAddress>, server_ips: Seq<IpNet>) -> bool {
    !addr_taken(ua.addr, existing) && in_some_net(ua, server_ips)
}

pub open spec fn client_ip_error(ua: IpNet, existing: Seq<IpAddress>) -> AwgctlError {
    if addr_taken(ua.addr, existing) {
        AwgctlError::AddressAlreadyExists(ua)
    } else {
        AwgctlError::AddressOutsideSubnet(ua)
    }
}

pub open spec fn client_ip_flags(ips: Seq<IpNet>, existing: Seq<IpAddress>, server_ips: Seq<IpNet>) -> Seq<
    bool,
> {
    ips.map_values(|ua: IpNet| client_ip_ok(ua, existing, server_ips))
}

/// What `client_validate_ip` gives.
pub open spec fn client_validate_ip_spec(
    ips: Seq<IpNet>,
    existing: Seq<IpAddress>,
    server_ips: Seq<IpNet>,
) -> Option<AwgctlError> {
    match first_false(client_ip_flags(ips, existing, server_ips)) {
        Some(i) => Some(client_ip_error(ips[i], existing)),
        None => None,
    }
}

pub fn contains_addr(existing: &Vec<IpAddress>, a: &IpAddress) -> (r: bool)
    ensures
        r == addr_taken(*a, existing@),
{
    let mut i: usize = 0;
    while i < existing.len()
        invariant
            i <= existing@.len(),
            forall|k: int| 0 <= k < i ==> existing@[k] != *a,
        decreases existing@.len() - i,
    {
        if existing[i] == *a {
            return true;
        }
        i = i + 1;
    }
    false
}

pub fn in_some_net_exec(ua: &IpNet, nets: &Vec<IpNet>) -> (r: bool)
    ensures
        r == in_some_net(*ua, nets@),
{
    let mut i: usize = 0;
    while i < nets.len()
        invariant
            i <= nets@.len(),
            forall|k: int| 0 <= k < i ==> !(#[trigger] nets@[k]).contains_net(*ua),
        decreases nets@.len() - i,
    {
        if nets[i].contains(ua) {
            return true;
        }
        i = i + 1;
    }
    false
}

/// Checks the addresses asked for a new client: none may be taken, and each
/// must lie within a subnet of the server. The first that fails gives the
/// error.
pub fn client_validate_ip(ips: Vec<IpNet>, existing: &Vec<IpAddress>, server_ips: &Vec<IpNet>) -> (r:
    Result<Vec<IpNet>>)
    ensures
        match client_validate_ip_spec(ips@, existing@, server_ips@) {
            None => r == Ok::<Vec<IpNet>, AwgctlError>(ips),
            Some(e) => r == Err::<Vec<IpNet>, AwgctlError>(e),
        },
{
    let ghost f = client_ip_flags(ips@, existing@, server_ips@);
    let mut i: usize = 0;
    while i < ips.len()
        invariant
            i <= ips@.len(),
            f == client_ip_flags(ips@, existing@, server_ips@),
            forall|j: int| 0 <= j < i ==> f[j],
        decreases ips@.len() - i,
    {
        let ua = ips[i];
        let taken = contains_addr(existing, &ua.addr);
        let inside = in_some_net_exec(&ua, server_ips);
        if taken || !inside {
            proof {
                lemma_first_false_at(f, i as int);
            }
            if taken {
                return Err(AwgctlError::AddressAlreadyExists(ua));
            }
            return Err(AwgctlError::AddressOutsideSubnet(ua));
        }
        i = i + 1;
    }
    proof {
        lemma_first_false_none(f);
    }
    Ok(ips)
}

// ---------------------------------------------------------------------------
// Tables
// ---------------------------------------------------------------------------

/// `str::len`: the number of bytes of the UTF-8 encoding.
pub open spec fn str_len(s: Seq<char>) -> usize {
    vstd::utf8::encode_utf8(s).len() as usize
}

pub open spec fn max_usize(a: usize, b: usize) -> usize {
    if a >= b {
        a
    } else {
        b
    }
}

/// A value that a listing shows as one row of a table.
pub trait Listable: Sized {
    /// The column headers.
    spec fn header_cells(verbose: bool) -> Seq<Seq<char>>;

    /// The cells of this value's row.
    spec fn row_cells(&self, verbose: bool) -> Seq<Seq<char>>;

    /// The value holds what its row shows.
    spec fn can_list(&self) -> bool;

    /// Column headers, by level of detail.
    fn headers(verbose: bool) -> (r: Vec<&'static str>)
        ensures
            r@.map_values(|h: &'static str| h@) == Self::header_cells(verbose),
    ;

    /// The cells of this row, by level of detail; one per header.
    fn row(&self, verbose: bool) -> (r: Vec<String>)
        requires
            self.can_list(),
        ensures
            views(r@) == self.row_cells(verbose),
            r@.len() == Self::header_cells(verbose).len(),
    ;
}

/// The width of column `j`: the greatest byte length among the header and
/// the cells of that column.
pub open spec fn column_width(headers: Seq<Seq<char>>, rows: Seq<Seq<Seq<char>>>, j: int) -> usize
    decreases rows.len(),
{
    if rows.len() == 0 {
        str_len(headers[j])
    } else {
        let w = column_width(headers, rows.drop_last(), j);
        let row = rows.last();
        if 0 <= j < row.len() {
            max_usize(w, str_len(row[j]))
        } else {
            w
        }
    }
}

pub open spec fn column_widths(headers: Seq<Seq<char>>, rows: Seq<Seq<Seq<char>>>) -> Seq<usize> {
    Seq::new(headers.len(), |j: int| column_width(headers, rows, j))
}

/// A cell left-aligned in `w` characters, then two spaces.
pub open spec fn padded(cell: Seq<char>, w: usize) -> Seq<char> {
    cell + spaces(
        if w > cell.len() {
            (w - cell.len()) as nat
        } else {
            0
        },
    ) + spaces(2)
}

/// The first `n` cells of a line, each padded to its column's width.
pub open spec fn line_cells(cells: Seq<Seq<char>>, widths: Seq<usize>, n: int) -> Seq<char>
    decreases n,
{
    if n <= 0 {
        Seq::empty()
    } else {
        line_cells(cells, widths, n - 1) + padded(cells[n - 1], widths[n - 1])
    }
}

/// A line of the table: the cells that have a column, then a newline.
pub open spec fn table_line(cells: Seq<Seq<char>>, widths: Seq<usize>) -> Seq<char> {
    let n = if cells.len() <= widths.len() {
        cells.len()
    } else {
        widths.len()
    };
    line_cells(cells, widths, n as int) + seq!['\n']
}

pub open spec fn table_rows(rows: Seq<Seq<Seq<char>>>, widths: Seq<usize>, n: int) -> Seq<char>
    decreases n,
{
    if n <= 0 {
        Seq::empty()
    } else {
        table_rows(rows, widths, n - 1) + table_line(rows[n - 1], widths)
    }
}

/// What `print_table` prints: the message alone when there are no rows;
/// otherwise the header line and one line per row, every column as wide as
/// its longest entry.
pub open spec fn table_text(headers: Seq<Seq<char>>, rows: Seq<Seq<Seq<char>>>, msg: Seq<char>) -> Seq<
    char,
> {
    if rows.len() == 0 {
        msg + seq!['\n']
    } else {
        let widths = column_widths(headers, rows);
        table_line(headers, widths) + table_rows(rows, widths, rows.len() as int)
    }
}

pub open spec fn rows_view(rows: Seq<Vec<String>>) -> Seq<Seq<Seq<char>>> {
    rows.map_values(|r: Vec<String>| views(r@))
}

/// Appends a line of cells padded to `widths`.
fn push_line(out: &mut String, cells: &Vec<String>, widths: &Vec<usize>)
    ensures
        final(out)@ == old(out)@ + table_line(views(cells@), widths@),
{
    let ghost start = out@;
    let ghost cv = views(cells@);
    let n = if cells.len() <= widths.len() {
        cells.len()
    } else {
        widths.len()
    };
    let mut k: usize = 0;
    while k < n
        invariant
            k <= n,
            n <= cells@.len(),
            n <= widths@.len(),
            cv == views(cells@),
            out@ == start + line_cells(cv, widths@, k as int),
        decreases n - k,
    {
        let cell = &cells[k];
        let w = widths[k];
        let count = cell.as_str().unicode_len();
        append_string(out, cell);
        let pad = if w > count {
            w - count
        } else {
            0
        };
        append_spaces(out, pad);
        append_spaces(out, 2);
        proof {
            assert(cv[k as int] == cell@);
            assert(start + line_cells(cv, widths@, k + 1) =~= start + line_cells(cv, widths@, k as int)
                + cell@ + spaces(pad as nat) + spaces(2));
        }
        k = k + 1;
    }
    push_char(out, '\n');
    assert(out@ =~= start + table_line(cv, widths@));
}

/// The widths of the columns: byte lengths of the headers, widened by the
/// cells of each row.
fn widths_of(headers: &Vec<String>, rows: &Vec<Vec<String>>) -> (r: Vec<usize>)
    ensures
        r@ == column_widths(views(headers@), rows_view(rows@)),
{
    let ghost hv = views(headers@);
    let ghost rv = rows_view(rows@);
    let mut w: Vec<usize> = Vec::new();
    let mut j: usize = 0;
    while j < headers.len()
        invariant
            j <= headers@.len(),
            hv == views(headers@),
            w@.len() == j,
            forall|k: int| 0 <= k < j ==> #[trigger] w@[k] == column_width(hv, rv.take(0), k),
        decreases headers@.len() - j,
    {
        let l = headers[j].as_str().len();
        w.push(l);
        assert(hv[j as int] == headers@[j as int]@);
        j = j + 1;
    }
    let mut i: usize = 0;
    while i < rows.len()
        invariant
            i <= rows@.len(),
            hv == views(headers@),
            rv == rows_view(rows@),
            w@.len() == hv.len(),
            forall|k: int| 0 <= k < w@.len() ==> #[trigger] w@[k] == column_width(hv, rv.take(i as int), k),
        decreases rows@.len() - i,
    {
        let row = &rows[i];
        let ghost rowv = views(row@);
        let ghost before = w@;
        assert(rv[i as int] == rowv);
        assert(rv.take(i + 1).drop_last() =~= rv.take(i as int));
        let m = if row.len() <= w.len() {
            row.len()
        } else {
            w.len()
        };
        let mut j: usize = 0;
        while j < m
            invariant
                j <= m,
                m <= row@.len(),
                m <= w@.len(),
                w@.len() == before.len(),
                rowv == views(row@),
                forall|k: int| 0 <= k < before.len() ==> #[trigger] w@[k] == if k < j {
                    max_usize(before[k], str_len(rowv[k]))
                } else {
                    before[k]
                },
            decreases m - j,
        {
            let l = row[j].as_str().len();
            assert(rowv[j as int] == row@[j as int]@);
            let cur = w[j];
            let nw = if cur >= l {
                cur
            } else {
                l
            };
            w.set(j, nw);
            j = j + 1;
        }
        proof {
            assert forall|k: int| 0 <= k < w@.len() implies #[trigger] w@[k] == column_width(
                hv,
                rv.take(i + 1),
                k,
            ) by {
                let t = rv.take(i + 1);
                assert(t.last() == rowv);
                assert(t.drop_last() == rv.take(i as int));
            }
        }
        i = i + 1;
    }
    proof {
        assert(rv.take(rows@.len() as int) =~= rv);
        assert(w@ =~= column_widths(hv, rv));
    }
    w
}

fn header_strings(h: &Vec<&'static str>) -> (r: Vec<String>)
    ensures
        views(r@) == h@.map_values(|x: &'static str| x@),
{
    let mut r: Vec<String> = Vec::new();
    let mut i: usize = 0;
    while i < h.len()
        invariant
            i <= h@.len(),
            views(r@) == h@.take(i as int).map_values(|x: &'static str| x@),
        decreases h@.len() - i,
    {
        let s = String::from_str(h[i]);
        let ghost prev = r@;
        r.push(s);
        proof {
            assert(views(r@) =~= views(prev).push(s@));
            assert(h@.take(i + 1).map_values(|x: &'static str| x@) =~= h@.take(i as int).map_values(
                |x: &'static str| x@,
            ).push(h@[i as int]@));
        }
        i = i + 1;
    }
    assert(h@.take(h@.len() as int) =~= h@);
    r
}

/// The text of a listing: `msg` and a newline when there are no entries;
/// otherwise a table of the entries' rows under the headers, each column as
/// wide as the byte length of its longest entry.
pub fn format_table<I: Listable>(entries: &Vec<I>, verbose: bool, msg: &str) -> (r: String)
    requires
        forall|i: int| 0 <= i < entries@.len() ==> (#[trigger] entries@[i]).can_list(),
    ensures
        r@ == table_text(
            I::header_cells(verbose),
            entries@.map_values(|e: I| e.row_cells(verbose)),
            msg@,
        ),
{
    let ghost ev = entries@.map_values(|e: I| e.row_cells(verbose));
    if entries.len() == 0 {
        let mut r = String::from_str(msg);
        push_char(&mut r, '\n');
        return r;
    }
    let hs = I::headers(verbose);
    let headers = header_strings(&hs);
    let mut rows: Vec<Vec<String>> = Vec::new();
    let mut i: usize = 0;
    while i < entries.len()
        invariant
            i <= entries@.len(),
            forall|i: int| 0 <= i < entries@.len() ==> (#[trigger] entries@[i]).can_list(),
            ev == entries@.map_values(|e: I| e.row_cells(verbose)),
            rows_view(rows@) == ev.take(i as int),
        decreases entries@.len() - i,
    {
        let row = entries[i].row(verbose);
        let ghost prev = rows@;
        rows.push(row);
        proof {
            assert(rows_view(rows@) =~= rows_view(prev).push(views(row@)));
            assert(ev.take(i + 1) =~= ev.take(i as int).push(ev[i as int]));
        }
        i = i + 1;
    }
    assert(ev.take(entries@.len() as int) =~= ev);
    let widths = widths_of(&headers, &rows);
    let mut out = String::new();
    push_line(&mut out, &headers, &widths);
    let ghost hl = out@;
    let ghost rv = rows_view(rows@);
    let mut k: usize = 0;
    while k < rows.len()
        invariant
            k <= rows@.len(),
            rv == rows_view(rows@),
            out@ == hl + table_rows(rv, widths@, k as int),
        decreases rows@.len() - k,
    {
        push_line(&mut out, &rows[k], &widths);
        assert(rv[k as int] == views(rows@[k as int]@));
        k = k + 1;
    }
    out
}

/// The greatest byte length among the headers.
fn label_width(headers: &Vec<String>) -> (r: usize)
    ensures
        r == max_len(views(headers@), headers@.len() as int),
{
    let mut m: usize = 0;
    let mut i: usize = 0;
    while i < headers.len()
        invariant
            i <= headers@.len(),
            m == max_len(views(headers@), i as int),
        decreases headers@.len() - i,
    {
        let l = headers[i].as_str().len();
        assert(views(headers@)[i as int] == headers@[i as int]@);
        if l > m {
            m = l;
        }
        i = i + 1;
    }
    m
}

/// The greatest byte length among the first `n` strings.
pub open spec fn max_len(s: Seq<Seq<char>>, n: int) -> usize
    decreases n,
{
    if n <= 0 {
        0
    } else {
        max_usize(max_len(s, n - 1), str_len(s[n - 1]))
    }
}

/// The first `n` lines of a detail listing: each key padded to `w`
/// characters, two spaces, the value.
pub open spec fn detail_lines(keys: Seq<Seq<char>>, values: Seq<Seq<char>>, w: usize, n: int) -> Seq<
    char,
>
    decreases n,
{
    if n <= 0 {
        Seq::empty()
    } else {
        detail_lines(keys, values, w, n - 1) + keys[n - 1] + spaces(
            if w > keys[n - 1].len() {
                (w - keys[n - 1].len()) as nat
            } else {
                0
            },
        ) + spaces(2) + values[n - 1] + seq!['\n']
    }
}

/// The detail listing of one entry: one line per header with its value,
/// the headers padded to the longest, then an empty line.
pub open spec fn details_text(keys: Seq<Seq<char>>, values: Seq<Seq<char>>) -> Seq<char> {
    let n = if keys.len() <= values.len() {
        keys.len()
    } else {
        values.len()
    };
    detail_lines(keys, values, max_len(keys, keys.len() as int), n as int) + seq!['\n']
}

/// The detailed view of one entry that `list` shows above a server's
/// clients: each verbose header beside its value.
pub fn format_details<I: Listable>(entry: &I) -> (r: String)
    requires
        entry.can_list(),
    ensures
        r@ == details_text(I::header_cells(true), entry.row_cells(true)),
{
    let hs = I::headers(true);
    let keys = header_strings(&hs);
    let values = entry.row(true);
    let w = label_width(&keys);
    let ghost kv = views(keys@);
    let ghost vv = views(values@);
    let n = if keys.len() <= values.len() {
        keys.len()
    } else {
        values.len()
    };
    let mut out = String::new();
    let mut k: usize = 0;
    while k < n
        invariant
            k <= n,
            n <= keys@.len(),
            n <= values@.len(),
            kv == views(keys@),
            vv == views(values@),
            out@ == detail_lines(kv, vv, w, k as int),
        decreases n - k,
    {
        let key = &keys[k];
        let count = key.as_str().unicode_len();
        append_string(&mut out, key);
        let pad = if w > count {
            w - count
        } else {
            0
        };
        append_spaces(&mut out, pad);
        append_spaces(&mut out, 2);
        append_string(&mut out, &values[k]);
        push_char(&mut out, '\n');
        proof {
            assert(kv[k as int] == key@);
            assert(vv[k as int] == values@[k as int]@);
            assert(detail_lines(kv, vv, w, k + 1) =~= detail_lines(kv, vv, w, k as int) + key@
                + spaces(pad as nat) + spaces(2) + values@[k as int]@ + seq!['\n']);
        }
        k = k + 1;
    }
    push_char(&mut out, '\n');
    out
}

// ---------------------------------------------------------------------------
// Ordering by creation time
// ---------------------------------------------------------------------------

/// A value with a creation time.
pub trait Dated: Sized {
    spec fn created(&self) -> int;

    /// The creation time, in nanoseconds since the Unix epoch.
    fn created_at(&self) -> (r: i128)
        ensures
            r == self.created(),
    ;
}

pub open spec fn sorted_by_created<T: Dated>(r: Seq<T>) -> bool {
    forall|i: int, j: int| 0 <= i < j < r.len() ==> #[trigger] r[i].created() <= #[trigger] r[j].created()
}

/// `p` maps each position of `r` to a distinct position of `v` holding the
/// same value, and entries created at the same time keep their order.
pub open spec fn stable_permutation<T: Dated>(p: Seq<int>, v: Seq<T>, r: Seq<T>) -> bool {
    &&& p.len() == r.len()
    &&& r.len() == v.len()
    &&& forall|i: int| 0 <= i < r.len() ==> 0 <= #[trigger] p[i] < v.len() && r[i] == v[p[i]]
    &&& forall|i: int, j: int| 0 <= i < j < r.len() ==> #[trigger] p[i] != #[trigger] p[j]
    &&& forall|i: int, j: int|
        0 <= i < j < r.len() && (#[trigger] r[i]).created() == (#[trigger] r[j]).created() ==> p[i]
            < p[j]
}

/// The entries ordered by creation time; entries created at the same time
/// keep their order (a stable sort, as `sort_by_key`).
pub fn sort_by_created<T: Dated>(v: Vec<T>) -> (r: Vec<T>)
    ensures
        sorted_by_created(r@),
        exists|p: Seq<int>| stable_permutation(p, v@, r@),
{
    let ghost v0 = v@;
    let mut v = v;
    let mut r: Vec<T> = Vec::new();
    let ghost mut p: Seq<int> = Seq::empty();
    let n = v.len();
    let mut i: usize = 0;
    while i < n
        invariant
            i <= n == v0.len(),
            v@ == v0.skip(i as int),
            r@.len() == i,
            p.len() == i,
            sorted_by_created(r@),
            forall|a: int| 0 <= a < i ==> 0 <= #[trigger] p[a] < i && r@[a] == v0[p[a]],
            forall|a: int, b: int| 0 <= a < b < i ==> #[trigger] p[a] != #[trigger] p[b],
            forall|a: int, b: int|
                0 <= a < b < i && (#[trigger] r@[a]).created() == (#[trigger] r@[b]).created()
                    ==> p[a] < p[b],
        decreases n - i,
    {
        let x = v.remove(0);
        assert(v@ =~= v0.skip(i + 1));
        assert(x == v0[i as int]);
        let kx = x.created_at();
        let mut pos: usize = 0;
        while pos < r.len()
            invariant
                pos <= r@.len(),
                forall|a: int| 0 <= a < pos ==> (#[trigger] r@[a]).created() <= kx,
            ensures
                pos <= r@.len(),
                forall|a: int| 0 <= a < pos ==> (#[trigger] r@[a]).created() <= kx,
                pos < r@.len() ==> r@[pos as int].created() > kx,
            decreases r@.len() - pos,
        {
            if r[pos].created_at() > kx {
                break;
            }
            pos = pos + 1;
        }
        let ghost old_r = r@;
        let ghost old_p = p;
        r.insert(pos, x);
        proof {
            p = old_p.insert(pos as int, i as int);
            assert(r@ == old_r.insert(pos as int, x));
            assert forall|a: int| 0 <= a < i + 1 implies 0 <= #[trigger] p[a] < i + 1 && r@[a]
                == v0[p[a]] by {
                if a < pos {
                    assert(p[a] == old_p[a]);
                } else if a > pos {
                    assert(p[a] == old_p[a - 1]);
                }
            }
            assert forall|a: int, b: int| 0 <= a < b < i + 1 implies #[trigger] p[a]
                != #[trigger] p[b] by {
                if a < pos && b < pos {
                } else if a < pos && b == pos {
                } else if a < pos && b > pos {
                    assert(p[b] == old_p[b - 1]);
                } else if a == pos {
                    assert(p[b] == old_p[b - 1]);
                } else {
                    assert(p[a] == old_p[a - 1]);
                    assert(p[b] == old_p[b - 1]);
                }
            }
            assert forall|a: int, b: int| 0 <= a < b < i + 1 implies #[trigger] r@[a].created()
                <= #[trigger] r@[b].created() by {
                if b < pos {
                    assert(r@[a] == old_r[a] && r@[b] == old_r[b]);
                } else if b == pos {
                    assert(r@[a] == old_r[a]);
                } else if a == pos {
                    assert(r@[b] == old_r[b - 1]);
                    if pos < old_r.len() {
                        assert(old_r[pos as int].created() <= old_r[b - 1].created());
                    }
                } else if a < pos {
                    assert(r@[a] == old_r[a] && r@[b] == old_r[b - 1]);
                } else {
                    assert(r@[a] == old_r[a - 1] && r@[b] == old_r[b - 1]);
                }
            }
            assert forall|a: int, b: int|
                0 <= a < b < i + 1 && (#[trigger] r@[a]).created() == (#[trigger] r@[b]).created()
                    implies p[a] < p[b] by {
                if b < pos {
                    assert(r@[a] == old_r[a] && r@[b] == old_r[b]);
                } else if b == pos {
                    assert(p[a] == old_p[a]);
                } else if a == pos {
                    assert(r@[b] == old_r[b - 1]);
                    if pos < old_r.len() {
                        assert(old_r[pos as int].created() <= old_r[b - 1].created());
                    }
                } else if a < pos {
                    assert(r@[a] == old_r[a] && r@[b] == old_r[b - 1]);
                    assert(p[a] == old_p[a] && p[b] == old_p[b - 1]);
                } else {
                    assert(r@[a] == old_r[a - 1] && r@[b] == old_r[b - 1]);
                    assert(p[a] == old_p[a - 1] && p[b] == old_p[b - 1]);
                }
            }
        }
        i = i + 1;
    }
    assert(stable_permutation(p, v0, r@));
    r
}

} // verus!
