//! AmneziaWG servers: what a server holds, the checks a stored server must
//! pass, and the choice of name, subnet, port and endpoint for a new one.
use crate::amnezia::{Amnezia, HSpan};
use crate::errors::{AwgctlError, Result};
use crate::ip_text::{fmt_net, net_text, parse_ip, parse_ip_chars, sub_vec};
use crate::net::{IpAddress, IpNet};
use crate::text::{
    all_digits, chars_of, dec_string, dec_value, find_from, fmt_dec, is_alnum, is_digit_exec,
    is_white_space, is_white_space_exec, join, join_strings, lemma_parse_dec_string,
    lemma_dec_string_digits, parse_u32_spec, string_of, trim, views,
};
use crate::util::{
    Dated, Listable, contains_port, dns_flags, find_invalid_dns, overlaps_none, server_ip_ok,
    server_validate_ip, server_validate_ip_spec, server_validate_port, sort_by_created,
    sorted_by_created, stable_permutation, validate_name, valid_name_chars, name_taken,
    port_configured, FIRST_OCT, PORT_RANGE_END, PORT_RANGE_START, SECOND_OCT,
};
use crate::text::first_false;
use vstd::prelude::*;

verus! {

/// A peer's key, as its base64 text: a private key, from which the peer's
/// own configuration can be made, or only a public key.
#[derive(Debug, PartialEq, Eq)]
pub enum PeerKey {
    Private(String),
    Public(String),
}

impl PeerKey {
    pub open spec fn key_view(&self) -> (bool, Seq<char>) {
        match self {
            PeerKey::Private(k) => (true, k@),
            PeerKey::Public(k) => (false, k@),
        }
    }

    pub fn copy(&self) -> (r: PeerKey)
        ensures
            r == *self,
    {
        match self {
            PeerKey::Private(k) => PeerKey::Private(k.clone()),
            PeerKey::Public(k) => PeerKey::Public(k.clone()),
        }
    }

    /// The keys are the same: both private or both public, with the same
    /// text.
    pub fn matches(&self, other: &PeerKey) -> (r: bool)
        ensures
            r == (self.key_view() == other.key_view()),
    {
        match (self, other) {
            (PeerKey::Private(a), PeerKey::Private(b)) => *a == *b,
            (PeerKey::Public(a), PeerKey::Public(b)) => *a == *b,
            _ => false,
        }
    }
}

/// A peer of a server: its allowed IPs, its persistent keepalive in seconds
/// (0 for none) and its key.
#[derive(Debug, PartialEq, Eq)]
pub struct PeerConfig {
    pub allowed_ips: Vec<IpNet>,
    pub persistent_keepalive: u16,
    pub key: PeerKey,
}

pub fn copy_nets(v: &Vec<IpNet>) -> (r: Vec<IpNet>)
    ensures
        r@ == v@,
{
    let mut r: Vec<IpNet> = Vec::new();
    let mut i: usize = 0;
    while i < v.len()
        invariant
            i <= v@.len(),
            r@ == v@.take(i as int),
        decreases v@.len() - i,
    {
        r.push(v[i]);
        i = i + 1;
        assert(r@ =~= v@.take(i as int));
    }
    assert(r@ =~= v@);
    r
}

impl PeerConfig {
    pub fn copy(&self) -> (r: PeerConfig)
        ensures
            r.allowed_ips@ == self.allowed_ips@,
            r.persistent_keepalive == self.persistent_keepalive,
            r.key == self.key,
    {
        PeerConfig {
            allowed_ips: copy_nets(&self.allowed_ips),
            persistent_keepalive: self.persistent_keepalive,
            key: self.key.copy(),
        }
    }
}

/// An AmneziaWG server: its name, creation time (nanoseconds since the Unix
/// epoch), the interface settings that the listings, the checks and the
/// clients' configurations read, its private key (base64) and its
/// AmneziaWG obfuscation settings.
#[derive(Debug)]
pub struct Server {
    pub name: String,
    pub created_at: i128,
    pub address: Vec<IpNet>,
    pub listen_port: Option<u16>,
    pub endpoint: Option<String>,
    pub dns: Vec<String>,
    pub mtu: Option<usize>,
    pub private_key: String,
    pub amnezia: Option<Amnezia<HSpan>>,
    pub peers: Vec<PeerConfig>,
}

// ---------------------------------------------------------------------------
// Cells of the listings
// ---------------------------------------------------------------------------

/// Networks as `IpNet` writes them, separated by `, `.
pub open spec fn nets_text(a: Seq<IpNet>) -> Seq<char> {
    join(a.map_values(|n: IpNet| net_text(n)), ", "@)
}

/// DNS servers separated by `, `, or a dash when there are none.
pub open spec fn dns_text(dns: Seq<String>) -> Seq<char> {
    if dns.len() == 0 {
        "—"@
    } else {
        join(views(dns), ", "@)
    }
}

pub fn fmt_nets(a: &Vec<IpNet>) -> (r: String)
    ensures
        r@ == nets_text(a@),
{
    let mut v: Vec<String> = Vec::new();
    let mut i: usize = 0;
    while i < a.len()
        invariant
            i <= a@.len(),
            views(v@) == a@.take(i as int).map_values(|n: IpNet| net_text(n)),
        decreases a@.len() - i,
    {
        let s = fmt_net(&a[i]);
        let ghost prev = v@;
        v.push(s);
        proof {
            assert(views(v@) =~= views(prev).push(s@));
            assert(a@.take(i + 1).map_values(|n: IpNet| net_text(n)) =~= a@.take(i as int).map_values(
                |n: IpNet| net_text(n),
            ).push(net_text(a@[i as int])));
        }
        i = i + 1;
    }
    assert(a@.take(a@.len() as int) =~= a@);
    join_strings(&v, ", ")
}

pub fn fmt_dns(dns: &Vec<String>) -> (r: String)
    ensures
        r@ == dns_text(dns@),
{
    if dns.len() == 0 {
        String::from_str("—")
    } else {
        join_strings(dns, ", ")
    }
}

impl Listable for Server {
    open spec fn header_cells(verbose: bool) -> Seq<Seq<char>> {
        if verbose {
            seq!["Name"@, "Address"@, "Port"@, "Endpoint"@, "DNS"@, "MTU"@]
        } else {
            seq!["Name"@, "Address"@, "Port"@, "DNS"@]
        }
    }

    open spec fn row_cells(&self, verbose: bool) -> Seq<Seq<char>> {
        let port = dec_string(self.listen_port.unwrap() as nat);
        if verbose {
            seq![
                self.name@,
                nets_text(self.address@),
                port,
                match self.endpoint {
                    Some(e) => e@,
                    None => "—"@,
                },
                dns_text(self.dns@),
                match self.mtu {
                    Some(m) => dec_string(m as nat),
                    None => "—"@,
                },
            ]
        } else {
            seq![self.name@, nets_text(self.address@), port, dns_text(self.dns@)]
        }
    }

    open spec fn can_list(&self) -> bool {
        self.listen_port is Some
    }

    fn headers(verbose: bool) -> (r: Vec<&'static str>) {
        let r = if verbose {
            vec!["Name", "Address", "Port", "Endpoint", "DNS", "MTU"]
        } else {
            vec!["Name", "Address", "Port", "DNS"]
        };
        assert(r@.map_values(|h: &'static str| h@) =~= Self::header_cells(verbose));
        r
    }

    fn row(&self, verbose: bool) -> (r: Vec<String>) {
        let address = fmt_nets(&self.address);
        let port = match self.listen_port {
            Some(p) => fmt_dec(p as u64),
            None => String::new(),
        };
        let dns = fmt_dns(&self.dns);
        let r = if verbose {
            let endpoint = match &self.endpoint {
                Some(e) => e.clone(),
                None => String::from_str("—"),
            };
            let mtu = match self.mtu {
                Some(m) => fmt_dec(m as u64),
                None => String::from_str("—"),
            };
            vec![self.name.clone(), address, port, endpoint, dns, mtu]
        } else {
            vec![self.name.clone(), address, port, dns]
        };
        assert(views(r@) =~= self.row_cells(verbose));
        r
    }
}

impl Dated for Server {
    open spec fn created(&self) -> int {
        self.created_at as int
    }

    fn created_at(&self) -> (r: i128) {
        self.created_at
    }
}

// ---------------------------------------------------------------------------
// A stored server
// ---------------------------------------------------------------------------

/// What a stored server must hold: an address, a listen port, a non-blank
/// endpoint and valid DNS entries; the first that fails is the error.
pub open spec fn server_check(s: &Server) -> Option<AwgctlError> {
    if s.address@.len() == 0 {
        Some(AwgctlError::ServerInvalid("no addresses"))
    } else if s.listen_port is None {
        Some(AwgctlError::ServerInvalid("no listen port"))
    } else if s.endpoint is None {
        Some(AwgctlError::ServerInvalid("no endpoint"))
    } else if trim(s.endpoint.unwrap()@).len() == 0 {
        Some(AwgctlError::ServerInvalid("empty endpoint"))
    } else {
        match first_false(dns_flags(s.dns@)) {
            Some(i) => Some(AwgctlError::InvalidDnsEntry(s.dns@[i])),
            None => None,
        }
    }
}

/// Whether every character is white space, that is whether `str::trim`
/// leaves nothing.
pub fn is_blank(s: &str) -> (r: bool)
    ensures
        r == (trim(s@).len() == 0),
{
    let v = chars_of(s);
    let (a, b) = trim_bounds(&v);
    a == b
}

/// The bounds of the trimmed part of `v`.
fn trim_bounds(v: &Vec<char>) -> (r: (usize, usize))
    ensures
        r.0 <= r.1 <= v@.len(),
        trim(v@) == v@.subrange(r.0 as int, r.1 as int),
{
    let n = v.len();
    let mut i: usize = 0;
    proof {
        assert(v@.subrange(0, n as int) =~= v@);
    }
    while i < n && is_white_space_exec(v[i])
        invariant
            i <= n == v@.len(),
            trim(v@) == trim(v@.subrange(i as int, n as int)),
        decreases n - i,
    {
        assert(v@.subrange(i as int, n as int).drop_first() =~= v@.subrange(i + 1, n as int));
        i = i + 1;
    }
    let mut j: usize = n;
    while j > i && is_white_space_exec(v[j - 1])
        invariant
            i <= j <= n == v@.len(),
            i < n ==> !is_white_space(v@[i as int]),
            trim(v@) == trim(v@.subrange(i as int, j as int)),
        decreases j - i,
    {
        let ghost sub = v@.subrange(i as int, j as int);
        assert(sub.drop_last() =~= v@.subrange(i as int, j - 1));
        assert(sub[0] == v@[i as int]);
        j = j - 1;
    }
    proof {
        let sub = v@.subrange(i as int, j as int);
        if i < j {
            assert(sub[0] == v@[i as int]);
            assert(sub.last() == v@[j - 1]);
        }
    }
    (i, j)
}

impl Server {
    /// The checks that loading a stored server makes: it must have an
    /// address, a listen port and a non-blank endpoint, and every DNS entry
    /// must be valid.
    pub fn validate(&self) -> (r: Result<()>)
        ensures
            match server_check(self) {
                Some(e) => r == Err::<(), AwgctlError>(e),
                None => r is Ok,
            },
    {
        if self.address.len() == 0 {
            return Err(AwgctlError::ServerInvalid("no addresses"));
        }
        if self.listen_port.is_none() {
            return Err(AwgctlError::ServerInvalid("no listen port"));
        }
        match &self.endpoint {
            None => {
                return Err(AwgctlError::ServerInvalid("no endpoint"));
            },
            Some(e) => {
                if is_blank(e.as_str()) {
                    return Err(AwgctlError::ServerInvalid("empty endpoint"));
                }
            },
        }
        let found = find_invalid_dns(&self.dns);
        match found {
            Some(i) => Err(AwgctlError::InvalidDnsEntry(self.dns[i].clone())),
            None => Ok(()),
        }
    }

    /// The servers ordered by creation time; servers created at the same
    /// time keep their order.
    pub fn list(servers: Vec<Server>) -> (r: Vec<Server>)
        ensures
            sorted_by_created(r@),
            exists|p: Seq<int>| stable_permutation(p, servers@, r@),
    {
        sort_by_created(servers)
    }

    /// Drops the peers with the given key, keeping the others in order.
    pub fn remove_peer(&mut self, key: &PeerKey)
        ensures
            final(self).peers@ == old(self).peers@.filter(
                |p: PeerConfig| p.key.key_view() != key.key_view(),
            ),
            final(self).name == old(self).name,
            final(self).created_at == old(self).created_at,
            final(self).address == old(self).address,
            final(self).listen_port == old(self).listen_port,
            final(self).endpoint == old(self).endpoint,
            final(self).dns == old(self).dns,
            final(self).mtu == old(self).mtu,
            final(self).private_key == old(self).private_key,
            final(self).amnezia == old(self).amnezia,
    {
        let ghost old_peers = self.peers@;
        let mut kept: Vec<PeerConfig> = Vec::new();
        let mut rest = Vec::new();
        std::mem::swap(&mut rest, &mut self.peers);
        let n = rest.len();
        let mut i: usize = 0;
        while i < n
            invariant
                i <= n == old_peers.len(),
                rest@ == old_peers.skip(i as int),
                kept@ == old_peers.take(i as int).filter(
                    |p: PeerConfig| p.key.key_view() != key.key_view(),
                ),
            decreases n - i,
        {
            let p = rest.remove(0);
            proof {
                assert(p == old_peers[i as int]);
                assert(rest@ =~= old_peers.skip(i + 1));
                assert(old_peers.take(i + 1).drop_last() =~= old_peers.take(i as int));
                old_peers.take(i as int).lemma_filter_push(p, |p: PeerConfig| p.key.key_view() != key.key_view());
                assert(old_peers.take(i + 1) =~= old_peers.take(i as int).push(p));
            }
            if !p.key.matches(key) {
                kept.push(p);
            }
            i = i + 1;
        }
        assert(old_peers.take(n as int) =~= old_peers);
        self.peers = kept;
    }
}

// ---------------------------------------------------------------------------
// Choosing a name
// ---------------------------------------------------------------------------

/// The number `N` of a name `awgN`, as `strip_prefix("awg")` and
/// `parse::<u32>` read it.
pub open spec fn awg_index(name: Seq<char>) -> Option<u32> {
    if name.len() >= 3 && name.take(3) == seq!['a', 'w', 'g'] {
        parse_u32_spec(name.skip(3))
    } else {
        None
    }
}

/// The greatest number among the first `n` names of the form `awgN`.
pub open spec fn max_awg_index(names: Seq<String>, n: int) -> Option<u32>
    decreases n,
{
    if n <= 0 {
        None
    } else {
        let m = max_awg_index(names, n - 1);
        match awg_index(names[n - 1]@) {
            None => m,
            Some(k) => match m {
                None => Some(k),
                Some(j) => Some(
                    if k > j {
                        k
                    } else {
                        j
                    },
                ),
            },
        }
    }
}

/// One more than the greatest `N` among the names `awgN`, or 0.
pub open spec fn next_awg_index(names: Seq<String>) -> nat {
    match max_awg_index(names, names.len() as int) {
        None => 0,
        Some(m) => (m + 1) as nat,
    }
}

/// The name given to a server when none is asked for: `awg` and the next
/// free number.
pub open spec fn auto_name(names: Seq<String>) -> Seq<char> {
    seq!['a', 'w', 'g'] + dec_string(next_awg_index(names))
}

/// `parse::<u32>` of the characters of `v` from `from` on.
pub(crate) fn parse_u32_from(v: &Vec<char>, from: usize) -> (r: Option<u32>)
    requires
        from <= v@.len(),
    ensures
        r == parse_u32_spec(v@.skip(from as int)),
{
    let ghost s = v@.skip(from as int);
    let mut i = from;
    if i < v.len() && v[i] == '+' {
        i = i + 1;
    }
    let ghost d = v@.skip(i as int);
    proof {
        if s.len() > 0 && s[0] == '+' {
            assert(d =~= s.drop_first());
        } else {
            assert(d =~= s);
        }
    }
    if i >= v.len() {
        return None;
    }
    let start = i;
    let mut val: u64 = 0;
    let mut over = false;
    while i < v.len()
        invariant
            start <= i <= v@.len(),
            start < v@.len(),
            d == v@.skip(start as int),
            parse_u32_spec(v@.skip(from as int)) == (if d.len() > 0 && all_digits(d) && dec_value(
                d,
            ) <= u32::MAX {
                Some(dec_value(d) as u32)
            } else {
                None::<u32>
            }),
            all_digits(v@.subrange(start as int, i as int)),
            over ==> dec_value(v@.subrange(start as int, i as int)) > u32::MAX,
            !over ==> val == dec_value(v@.subrange(start as int, i as int)) && val <= u32::MAX,
        decreases v@.len() - i,
    {
        let c = v[i];
        if !is_digit_exec(c) {
            proof {
                assert(d[i - start] == c);
                assert(!crate::text::is_digit(d[i - start]));
                assert(!all_digits(d));
            }
            return None;
        }
        proof {
            let t = v@.subrange(start as int, i + 1);
            assert(t.drop_last() =~= v@.subrange(start as int, i as int));
            assert(t.last() == c);
            assert(all_digits(t)) by {
                assert forall|k: int| 0 <= k < t.len() implies crate::text::is_digit(#[trigger] t[k]) by {
                    if k < t.len() - 1 {
                        assert(t[k] == v@.subrange(start as int, i as int)[k]);
                    }
                }
            }
        }
        if !over {
            val = val * 10 + (c as u64 - '0' as u64);
            if val > 0xffff_ffff {
                over = true;
            }
        }
        i = i + 1;
    }
    proof {
        assert(v@.subrange(start as int, i as int) =~= d);
    }
    if over {
        None
    } else {
        Some(val as u32)
    }
}

/// The number `N` of a name `awgN`, if it has that form.
pub fn parse_awg_index(name: &str) -> (r: Option<u32>)
    ensures
        r == awg_index(name@),
{
    let v = chars_of(name);
    if v.len() >= 3 && v[0] == 'a' && v[1] == 'w' && v[2] == 'g' {
        assert(v@.take(3) =~= seq!['a', 'w', 'g']);
        parse_u32_from(&v, 3)
    } else {
        proof {
            if v@.len() >= 3 {
                assert(v@.take(3)[0] == v@[0] && v@.take(3)[1] == v@[1] && v@.take(3)[2] == v@[2]);
            }
        }
        None
    }
}

/// Every number of a name `awgN` is at most the greatest.
pub proof fn lemma_max_awg_index(names: Seq<String>, n: int, i: int)
    requires
        0 <= i < n <= names.len(),
        awg_index(names[i]@) is Some,
    ensures
        max_awg_index(names, n) is Some,
        awg_index(names[i]@).unwrap() <= max_awg_index(names, n).unwrap(),
    decreases n,
{
    if i < n - 1 {
        lemma_max_awg_index(names, n - 1, i);
    }
}

/// The name given to a server when none is asked for is a valid name that
/// no server has.
pub proof fn lemma_auto_name_free(names: Seq<String>)
    requires
        max_awg_index(names, names.len() as int) != Some(u32::MAX),
    ensures
        valid_name_chars(auto_name(names)),
        !name_taken(auto_name(names), names),
{
    let next = next_awg_index(names);
    let a = auto_name(names);
    let d = dec_string(next);
    lemma_dec_string_digits(next);
    assert forall|i: int| 0 <= i < a.len() implies is_alnum(#[trigger] a[i]) || a[i] == '-' || a[i]
        == '_' by {
        if i >= 3 {
            assert(a[i] == d[i - 3]);
            assert(crate::text::is_digit(d[i - 3]));
        }
    }
    assert(a.take(3) =~= seq!['a', 'w', 'g']);
    assert(a.skip(3) =~= d);
    lemma_parse_dec_string(next as u32);
    assert(awg_index(a) == Some(next as u32));
    if name_taken(a, names) {
        let k = choose|k: int| 0 <= k < names.len() && (#[trigger] names[k])@ == a;
        lemma_max_awg_index(names, names.len() as int, k);
    }
}

impl Server {
    /// The name of a new server: the one asked for, if valid and free, or
    /// `awgN` with `N` one more than the greatest number among the names
    /// `awgN` taken (0 if there is none).
    pub fn resolve_name(name: Option<String>, existing: &Vec<String>) -> (r: Result<String>)
        requires
            name is None ==> max_awg_index(existing@, existing@.len() as int) != Some(u32::MAX),
        ensures
            match name {
                Some(n) => {
                    &&& !valid_name_chars(n@) ==> r == Err::<String, AwgctlError>(
                        AwgctlError::InvalidName(n),
                    )
                    &&& valid_name_chars(n@) && name_taken(n@, existing@) ==> r == Err::<
                        String,
                        AwgctlError,
                    >(AwgctlError::NameAlreadyExists(n))
                    &&& valid_name_chars(n@) && !name_taken(n@, existing@) ==> r == Ok::<
                        String,
                        AwgctlError,
                    >(n)
                },
                None => r matches Ok(s) && s@ == auto_name(existing@) && !name_taken(
                    s@,
                    existing@,
                ),
            },
    {
        match name {
            Some(n) => validate_name(n, existing),
            None => {
                let mut max: Option<u32> = None;
                let mut i: usize = 0;
                while i < existing.len()
                    invariant
                        i <= existing@.len(),
                        max == max_awg_index(existing@, i as int),
                    decreases existing@.len() - i,
                {
                    match parse_awg_index(existing[i].as_str()) {
                        Some(k) => {
                            max = match max {
                                None => Some(k),
                                Some(j) => Some(
                                    if k > j {
                                        k
                                    } else {
                                        j
                                    },
                                ),
                            };
                        },
                        None => {},
                    }
                    i = i + 1;
                }
                let next: u32 = match max {
                    None => 0,
                    Some(m) => m + 1,
                };
                let mut s = String::from_str("awg");
                let digits = fmt_dec(next as u64);
                crate::text::append_string(&mut s, &digits);
                proof {
                    reveal_strlit("awg");
                    assert(s@ =~= auto_name(existing@));
                    lemma_auto_name_free(existing@);
                }
                Ok(s)
            },
        }
    }
}

// ---------------------------------------------------------------------------
// Choosing a subnet
// ---------------------------------------------------------------------------

/// The first address of the pool of automatic subnets, `10.0.0.0`.
pub open spec fn pool_base() -> nat {
    FIRST_OCT as nat * 0x100_0000 + SECOND_OCT as nat * 0x1_0000
}

/// The first address of the subnet `10.0.x.0/24`.
pub open spec fn subnet_start(x: nat) -> nat {
    pool_base() + 0x100 * x
}

/// An IPv4 network shares an address with the subnet `10.0.x.0/24`.
pub open spec fn blocks_subnet(n: IpNet, x: nat) -> bool {
    &&& n.addr.is_v4()
    &&& n.network() <= subnet_start(x) + 0xff
    &&& subnet_start(x) <= n.broadcast()
}

pub open spec fn subnet_free(x: nat, nets: Seq<IpNet>) -> bool {
    forall|k: int| 0 <= k < nets.len() ==> !blocks_subnet(#[trigger] nets[k], x)
}

/// The least `x >= from` below 256 whose subnet `10.0.x.0/24` is free.
pub open spec fn first_free_subnet(nets: Seq<IpNet>, from: nat) -> Option<nat>
    decreases 256 - from,
{
    if from >= 256 {
        None
    } else if subnet_free(from, nets) {
        Some(from)
    } else {
        first_free_subnet(nets, from + 1)
    }
}

/// The network given to a new server in the subnet `10.0.x.0/24`:
/// `10.0.x.1/24`.
pub open spec fn auto_subnet(x: nat) -> IpNet {
    IpNet { addr: IpAddress::V4((subnet_start(x) + 1) as u32), prefix: 24 }
}

/// The subnets of a new server: those asked for, if they pass
/// `server_validate_ip`; otherwise `10.0.x.1/24` for the least `x` whose
/// `/24` no configured subnet and no system address touches.
pub open spec fn resolve_ip_spec(ips: Seq<IpNet>, existing: Seq<IpNet>, sys: Seq<IpNet>) -> Result<
    Seq<IpNet>,
> {
    if ips.len() > 0 {
        match server_validate_ip_spec(ips, existing, sys) {
            None => Ok(ips),
            Some(e) => Err(e),
        }
    } else {
        match first_free_subnet(existing + sys, 0) {
            Some(x) => Ok(seq![auto_subnet(x)]),
            None => Err(AwgctlError::NoAvailableSubnet),
        }
    }
}

proof fn lemma_first_free_subnet(nets: Seq<IpNet>, from: nat, x: nat)
    requires
        from <= x < 256,
        subnet_free(x, nets),
        forall|y: nat| from <= y < x ==> !subnet_free(y, nets),
    ensures
        first_free_subnet(nets, from) == Some(x),
    decreases x - from,
{
    if from < x {
        lemma_first_free_subnet(nets, from + 1, x);
    }
}

proof fn lemma_found_free_subnet(nets: Seq<IpNet>, from: nat)
    ensures
        first_free_subnet(nets, from) matches Some(x) ==> from <= x < 256 && subnet_free(x, nets),
    decreases 256 - from,
{
    if from < 256 && !subnet_free(from, nets) {
        lemma_found_free_subnet(nets, from + 1);
    }
}

proof fn lemma_no_free_subnet(nets: Seq<IpNet>, from: nat)
    requires
        forall|y: nat| from <= y < 256 ==> !subnet_free(y, nets),
    ensures
        first_free_subnet(nets, from) is None,
    decreases 256 - from,
{
    if from < 256 {
        lemma_no_free_subnet(nets, from + 1);
    }
}

/// The automatic subnet `10.0.x.1/24` spans exactly `10.0.x.0` to
/// `10.0.x.255`.
pub proof fn lemma_auto_subnet_range(x: nat)
    requires
        x < 256,
    ensures
        auto_subnet(x).network() == subnet_start(x),
        auto_subnet(x).broadcast() == subnet_start(x) + 0xff,
{
    vstd::arithmetic::power2::lemma2_to64();
    let n = auto_subnet(x);
    assert(n.host_bits() == 8);
    assert(n.block() == 256);
    assert(subnet_start(x) + 1 < 0x1_0000_0000);
    assert(n.addr.value() == subnet_start(x) + 1);
    assert((subnet_start(x) + 1) % 256 == 1) by (nonlinear_arith)
        requires
            subnet_start(x) == 167772160 + 256 * x,
    ;
}

/// A subnet that nothing touches overlaps no network: the automatic
/// subnet of a new server passes the checks made on subnets asked for.
pub proof fn lemma_free_subnet_passes(x: nat, existing: Seq<IpNet>, sys: Seq<IpNet>)
    requires
        x < 256,
        subnet_free(x, existing + sys),
    ensures
        server_ip_ok(auto_subnet(x), existing, sys),
{
    lemma_auto_subnet_range(x);
    let a = auto_subnet(x);
    let all = existing + sys;
    assert forall|j: int| 0 <= j < existing.len() implies !crate::util::overlaps(
        a,
        #[trigger] existing[j],
    ) by {
        assert(all[j] == existing[j]);
        assert(!blocks_subnet(all[j], x));
        lemma_block_nonempty(existing[j]);
    }
    assert forall|j: int| 0 <= j < sys.len() implies !crate::util::overlaps(a, #[trigger] sys[j]) by {
        assert(all[existing.len() + j] == sys[j]);
        assert(!blocks_subnet(all[existing.len() + j], x));
        lemma_block_nonempty(sys[j]);
    }
}

/// The subnets that a new server gets, asked for or chosen, are at least
/// one, and none of them overlaps another server's subnet or an address of
/// the system.
pub proof fn lemma_resolve_ip_ok(ips: Seq<IpNet>, existing: Seq<IpNet>, sys: Seq<IpNet>)
    ensures
        resolve_ip_spec(ips, existing, sys) matches Ok(a) ==> {
            &&& a.len() > 0
            &&& forall|i: int| 0 <= i < a.len() ==> server_ip_ok(#[trigger] a[i], existing, sys)
        },
{
    if ips.len() > 0 {
        let f = crate::util::server_ip_flags(ips, existing, sys);
        crate::text::lemma_first_false_some(f);
        if first_false(f) is None {
            assert forall|i: int| 0 <= i < ips.len() implies server_ip_ok(
                #[trigger] ips[i],
                existing,
                sys,
            ) by {
                assert(f[i]);
            }
        }
    } else {
        lemma_found_free_subnet(existing + sys, 0);
        if let Some(x) = first_free_subnet(existing + sys, 0) {
            lemma_free_subnet_passes(x, existing, sys);
            assert(seq![auto_subnet(x)][0] == auto_subnet(x));
        }
    }
}

pub proof fn lemma_block_nonempty(n: IpNet)
    ensures
        n.network() <= n.broadcast(),
{
    vstd::arithmetic::power2::lemma_pow2_pos(n.host_bits());
    assert(n.addr.value() % n.block() <= n.addr.value()) by {
        vstd::arithmetic::div_mod::lemma_mod_decreases(n.addr.value(), n.block());
    }
}

/// Whether `n` touches the subnet `10.0.x.0/24`.
fn blocks_subnet_exec(n: &IpNet, x: u32) -> (r: bool)
    requires
        x < 256,
    ensures
        r == blocks_subnet(*n, x as nat),
{
    if !n.addr.is_ipv4() {
        return false;
    }
    let (s, e) = n.bounds();
    let start: u128 = 167772160 + 256 * x as u128;
    s <= start + 255 && start <= e
}

fn subnet_free_exec(x: u32, existing: &Vec<IpNet>, sys: &Vec<IpNet>) -> (r: bool)
    requires
        x < 256,
    ensures
        r == subnet_free(x as nat, existing@ + sys@),
{
    let ghost all = existing@ + sys@;
    let mut k: usize = 0;
    while k < existing.len()
        invariant
            k <= existing@.len(),
            x < 256,
            all == existing@ + sys@,
            forall|j: int| 0 <= j < k ==> !blocks_subnet(#[trigger] all[j], x as nat),
        decreases existing@.len() - k,
    {
        assert(all[k as int] == existing@[k as int]);
        if blocks_subnet_exec(&existing[k], x) {
            return false;
        }
        k = k + 1;
    }
    let mut k: usize = 0;
    while k < sys.len()
        invariant
            k <= sys@.len(),
            x < 256,
            all == existing@ + sys@,
            forall|j: int| 0 <= j < existing@.len() + k ==> !blocks_subnet(#[trigger] all[j], x as nat),
        decreases sys@.len() - k,
    {
        assert(all[existing@.len() + k] == sys@[k as int]);
        if blocks_subnet_exec(&sys[k], x) {
            return false;
        }
        k = k + 1;
    }
    true
}

impl Server {
    /// The subnets of a new server. Those asked for must overlap no other
    /// server's subnet and no system address; with none asked for, the
    /// first `10.0.x.0/24` (by `x`) that no configured subnet and no system
    /// address touches is taken, as `10.0.x.1/24`.
    pub fn resolve_ip(ips: Vec<IpNet>, existing: &Vec<IpNet>, sys_addrs: &Vec<IpNet>) -> (r: Result<
        Vec<IpNet>,
    >)
        ensures
            match resolve_ip_spec(ips@, existing@, sys_addrs@) {
                Ok(v) => r matches Ok(w) && w@ == v,
                Err(e) => r == Err::<Vec<IpNet>, AwgctlError>(e),
            },
            ips@.len() == 0 ==> (r matches Ok(w) ==> w@.len() == 1 && server_ip_ok(
                w@[0],
                existing@,
                sys_addrs@,
            )),
    {
        if ips.len() > 0 {
            return server_validate_ip(ips, existing, sys_addrs);
        }
        let ghost all = existing@ + sys_addrs@;
        let mut x: u32 = 0;
        while x < 256
            invariant
                x <= 256,
                ips@.len() == 0,
                all == existing@ + sys_addrs@,
                forall|y: nat| y < x ==> !subnet_free(y, all),
            decreases 256 - x,
        {
            if subnet_free_exec(x, existing, sys_addrs) {
                let net = IpNet { addr: IpAddress::V4(167772160 + 256 * x + 1), prefix: 24 };
                proof {
                    lemma_first_free_subnet(all, 0, x as nat);
                    lemma_free_subnet_passes(x as nat, existing@, sys_addrs@);
                    assert(net == auto_subnet(x as nat));
                }
                let r = vec![net];
                assert(r@ =~= seq![auto_subnet(x as nat)]);
                return Ok(r);
            }
            x = x + 1;
        }
        proof {
            lemma_no_free_subnet(all, 0);
        }
        Err(AwgctlError::NoAvailableSubnet)
    }

    /// The subnets of the servers, in order.
    pub fn used_addresses(servers: &Vec<Server>) -> (r: Vec<IpNet>)
        ensures
            r@ == all_addresses(servers@, servers@.len() as int),
    {
        let mut r: Vec<IpNet> = Vec::new();
        let mut i: usize = 0;
        while i < servers.len()
            invariant
                i <= servers@.len(),
                r@ == all_addresses(servers@, i as int),
            decreases servers@.len() - i,
        {
            let a = &servers[i].address;
            let mut j: usize = 0;
            let ghost before = r@;
            while j < a.len()
                invariant
                    j <= a@.len(),
                    r@ == before + a@.take(j as int),
                decreases a@.len() - j,
            {
                r.push(a[j]);
                j = j + 1;
                assert(r@ =~= before + a@.take(j as int));
            }
            assert(a@.take(a@.len() as int) =~= a@);
            i = i + 1;
        }
        r
    }

    /// The listen ports of the servers, in order.
    pub fn used_ports(servers: &Vec<Server>) -> (r: Vec<u16>)
        requires
            forall|i: int| 0 <= i < servers@.len() ==> (#[trigger] servers@[i]).listen_port is Some,
        ensures
            r@ == servers@.map_values(|s: Server| s.listen_port.unwrap()),
    {
        let mut r: Vec<u16> = Vec::new();
        let mut i: usize = 0;
        while i < servers.len()
            invariant
                i <= servers@.len(),
                forall|i: int| 0 <= i < servers@.len() ==> (#[trigger] servers@[i]).listen_port is Some,
                r@ == servers@.take(i as int).map_values(|s: Server| s.listen_port.unwrap()),
            decreases servers@.len() - i,
        {
            match servers[i].listen_port {
                Some(p) => r.push(p),
                None => {},
            }
            i = i + 1;
            assert(r@ =~= servers@.take(i as int).map_values(|s: Server| s.listen_port.unwrap()));
        }
        assert(servers@.take(servers@.len() as int) =~= servers@);
        r
    }
}

/// The subnets of the first `n` servers, in order.
pub open spec fn all_addresses(servers: Seq<Server>, n: int) -> Seq<IpNet>
    decreases n,
{
    if n <= 0 {
        Seq::empty()
    } else {
        all_addresses(servers, n - 1) + servers[n - 1].address@
    }
}

/// The subnets of the first `n` servers hold every subnet of each of them,
/// and nothing else.
pub proof fn lemma_all_addresses(servers: Seq<Server>, n: int)
    requires
        0 <= n <= servers.len(),
    ensures
        forall|i: int, j: int|
            0 <= i < n && 0 <= j < servers[i].address@.len() ==> all_addresses(servers, n).contains(
                #[trigger] servers[i].address@[j],
            ),
        forall|x: IpNet|
            #[trigger] all_addresses(servers, n).contains(x) ==> exists|i: int, j: int|
                0 <= i < n && 0 <= j < servers[i].address@.len() && #[trigger] servers[i].address@[j]
                    == x,
    decreases n,
{
    if n > 0 {
        lemma_all_addresses(servers, n - 1);
        let p = all_addresses(servers, n - 1);
        let q = servers[n - 1].address@;
        let s = all_addresses(servers, n);
        assert(s == p + q);
        assert forall|i: int, j: int|
            0 <= i < n && 0 <= j < servers[i].address@.len() implies s.contains(
            #[trigger] servers[i].address@[j],
        ) by {
            if i < n - 1 {
                assert(p.contains(servers[i].address@[j]));
                let k = choose|k: int| 0 <= k < p.len() && p[k] == servers[i].address@[j];
                assert(s[k] == p[k]);
            } else {
                assert(s[p.len() + j] == q[j]);
            }
        }
        assert forall|x: IpNet| #[trigger] s.contains(x) implies exists|i: int, j: int|
            0 <= i < n && 0 <= j < servers[i].address@.len() && #[trigger] servers[i].address@[j]
                == x by {
            let k = choose|k: int| 0 <= k < s.len() && s[k] == x;
            if k < p.len() {
                assert(s[k] == p[k]);
                assert(p.contains(x));
            } else {
                let j = k - p.len();
                assert(s[k] == q[j]);
                assert(servers[n - 1].address@[j] == x);
            }
        }
    }
}

// ---------------------------------------------------------------------------
// Choosing a port
// ---------------------------------------------------------------------------

/// The next step of choosing a listen port.
#[derive(Debug, PartialEq)]
pub enum PortAction {
    /// Try to bind this port, and report back whether it could be bound.
    Probe(u16),
    /// The port is chosen.
    Accept(u16),
    /// No port can be chosen.
    Reject(AwgctlError),
}

/// The least port from `from` to the end of the automatic range that no
/// server has configured.
pub open spec fn first_free_port(existing: Seq<u16>, from: int) -> Option<u16>
    decreases PORT_RANGE_END + 1 - from,
{
    if from > PORT_RANGE_END {
        None
    } else if from < PORT_RANGE_START {
        first_free_port(existing, PORT_RANGE_START as int)
    } else if !port_configured(from as u16, existing) {
        Some(from as u16)
    } else {
        first_free_port(existing, from + 1)
    }
}

pub open spec fn probe_or_reject(c: Option<u16>) -> PortAction {
    match c {
        Some(p) => PortAction::Probe(p),
        None => PortAction::Reject(AwgctlError::NoAvailablePort),
    }
}

/// One step of choosing a listen port, given the port asked for and the
/// outcome of the last probe (the port probed, and whether it could be
/// bound). A port asked for is probed unless another server has it, and
/// taken if it binds. Otherwise the ports of the automatic range are probed
/// in order, skipping those of other servers, and the first that binds is
/// taken.
pub open spec fn resolve_port_spec(port: Option<u16>, existing: Seq<u16>, last: Option<(u16, bool)>) -> PortAction {
    match (port, last) {
        (Some(p), None) => {
            if port_configured(p, existing) {
                PortAction::Reject(AwgctlError::PortAlreadyConfigured(p))
            } else {
                PortAction::Probe(p)
            }
        },
        (Some(_), Some((q, ok))) => {
            if port_configured(q, existing) {
                PortAction::Reject(AwgctlError::PortAlreadyConfigured(q))
            } else if ok {
                PortAction::Accept(q)
            } else {
                PortAction::Reject(AwgctlError::PortInUse(q))
            }
        },
        (None, None) => probe_or_reject(first_free_port(existing, PORT_RANGE_START as int)),
        (None, Some((q, true))) => PortAction::Accept(q),
        (None, Some((q, false))) => probe_or_reject(first_free_port(existing, q + 1)),
    }
}

fn first_free_port_exec(existing: &Vec<u16>, from: u32) -> (r: Option<u16>)
    ensures
        r == first_free_port(existing@, from as int),
{
    let mut p: u32 = if from < PORT_RANGE_START as u32 {
        PORT_RANGE_START as u32
    } else {
        from
    };
    assert(first_free_port(existing@, from as int) == first_free_port(existing@, p as int));
    while p <= PORT_RANGE_END as u32
        invariant
            p >= PORT_RANGE_START,
            first_free_port(existing@, from as int) == first_free_port(existing@, p as int),
        decreases PORT_RANGE_END + 1 - p,
    {
        if !contains_port(existing, p as u16) {
            return Some(p as u16);
        }
        p = p + 1;
    }
    None
}

impl Server {
    /// One step of choosing the listen port of a new server: `port` is the
    /// port asked for, `existing` the ports of the other servers, `last`
    /// the port probed last and whether the system let it be bound.
    pub fn resolve_port(port: Option<u16>, existing: &Vec<u16>, last: Option<(u16, bool)>) -> (r:
        PortAction)
        ensures
            r == resolve_port_spec(port, existing@, last),
    {
        match (port, last) {
            (Some(p), None) => {
                if contains_port(existing, p) {
                    PortAction::Reject(AwgctlError::PortAlreadyConfigured(p))
                } else {
                    PortAction::Probe(p)
                }
            },
            (Some(_), Some((q, ok))) => match server_validate_port(q, existing, ok) {
                Ok(q) => PortAction::Accept(q),
                Err(e) => PortAction::Reject(e),
            },
            (None, None) => match first_free_port_exec(existing, PORT_RANGE_START as u32) {
                Some(c) => PortAction::Probe(c),
                None => PortAction::Reject(AwgctlError::NoAvailablePort),
            },
            (None, Some((q, true))) => PortAction::Accept(q),
            (None, Some((q, false))) => match first_free_port_exec(existing, q as u32 + 1) {
                Some(c) => PortAction::Probe(c),
                None => PortAction::Reject(AwgctlError::NoAvailablePort),
            },
        }
    }
}

/// Every port probed in the automatic search lies in the range, belongs to
/// no other server, and comes after the port probed before it.
pub proof fn lemma_port_probes(existing: Seq<u16>, last: Option<(u16, bool)>)
    ensures
        resolve_port_spec(None, existing, last) matches PortAction::Probe(p) ==> {
            &&& PORT_RANGE_START <= p <= PORT_RANGE_END
            &&& !port_configured(p, existing)
            &&& last matches Some((q, _)) ==> q < p
        },
{
    match last {
        None => lemma_first_free_port(existing, PORT_RANGE_START as int),
        Some((q, ok)) => {
            if !ok {
                lemma_first_free_port(existing, q + 1);
            }
        },
    }
}

pub proof fn lemma_first_free_port(existing: Seq<u16>, from: int)
    ensures
        first_free_port(existing, from) matches Some(p) ==> {
            &&& PORT_RANGE_START <= p <= PORT_RANGE_END
            &&& from <= p
            &&& !port_configured(p, existing)
        },
    decreases PORT_RANGE_END + 1 - from,
{
    if from <= PORT_RANGE_END {
        if from < PORT_RANGE_START {
            lemma_first_free_port(existing, PORT_RANGE_START as int);
        } else if port_configured(from as u16, existing) {
            lemma_first_free_port(existing, from + 1);
        }
    }
}

/// The port that the automatic search should settle on when `binds` says
/// which ports the system lets be bound: the least port from `from` on, in
/// the automatic range, that no server has and that binds.
pub open spec fn least_bindable_port(existing: Seq<u16>, binds: spec_fn(u16) -> bool, from: int) -> Option<u16>
    decreases PORT_RANGE_END + 1 - from,
{
    if from > PORT_RANGE_END {
        None
    } else if from < PORT_RANGE_START {
        least_bindable_port(existing, binds, PORT_RANGE_START as int)
    } else if !port_configured(from as u16, existing) && binds(from as u16) {
        Some(from as u16)
    } else {
        least_bindable_port(existing, binds, from + 1)
    }
}

/// The automatic port search run for at most `fuel` more probes from the
/// outcome `last`, each probe answered by `binds`.
pub open spec fn port_search(
    existing: Seq<u16>,
    binds: spec_fn(u16) -> bool,
    last: Option<(u16, bool)>,
    fuel: nat,
) -> PortAction
    decreases fuel,
{
    match resolve_port_spec(None, existing, last) {
        PortAction::Probe(p) => if fuel == 0 {
            PortAction::Probe(p)
        } else {
            port_search(existing, binds, Some((p, binds(p))), (fuel - 1) as nat)
        },
        a => a,
    }
}

pub open spec fn port_outcome(p: Option<u16>) -> PortAction {
    match p {
        Some(p) => PortAction::Accept(p),
        None => PortAction::Reject(AwgctlError::NoAvailablePort),
    }
}

pub open spec fn configured_at(q: int, existing: Seq<u16>) -> bool {
    port_configured(q as u16, existing)
}

proof fn lemma_first_free_port_skips(existing: Seq<u16>, from: int)
    requires
        PORT_RANGE_START <= from,
    ensures
        match first_free_port(existing, from) {
            Some(p) => forall|q: int| from <= q < p ==> #[trigger] configured_at(q, existing),
            None => forall|q: int| from <= q <= PORT_RANGE_END ==> #[trigger] configured_at(q, existing),
        },
    decreases PORT_RANGE_END + 1 - from,
{
    if from <= PORT_RANGE_END && port_configured(from as u16, existing) {
        lemma_first_free_port_skips(existing, from + 1);
    }
}

proof fn lemma_least_skip(existing: Seq<u16>, binds: spec_fn(u16) -> bool, from: int, p: int)
    requires
        PORT_RANGE_START <= from <= p,
        forall|q: int| from <= q < p ==> #[trigger] configured_at(q, existing),
    ensures
        least_bindable_port(existing, binds, from) == least_bindable_port(existing, binds, p),
    decreases p - from,
{
    if from < p {
        assert(configured_at(from, existing));
        lemma_least_skip(existing, binds, from + 1, p);
    }
}

proof fn lemma_port_search_from(
    existing: Seq<u16>,
    binds: spec_fn(u16) -> bool,
    from: int,
    last: Option<(u16, bool)>,
    fuel: nat,
)
    requires
        PORT_RANGE_START <= from <= PORT_RANGE_END + 1,
        resolve_port_spec(None, existing, last) == probe_or_reject(first_free_port(existing, from)),
        fuel >= PORT_RANGE_END + 1 - from,
    ensures
        port_search(existing, binds, last, fuel) == port_outcome(
            least_bindable_port(existing, binds, from),
        ),
    decreases PORT_RANGE_END + 1 - from,
{
    lemma_first_free_port(existing, from);
    lemma_first_free_port_skips(existing, from);
    match first_free_port(existing, from) {
        None => {
            lemma_least_skip(existing, binds, from, PORT_RANGE_END + 1);
            assert(least_bindable_port(existing, binds, PORT_RANGE_END + 1) is None);
            assert(port_search(existing, binds, last, fuel) == PortAction::Reject(
                AwgctlError::NoAvailablePort,
            ));
        },
        Some(p) => {
            lemma_least_skip(existing, binds, from, p as int);
            assert(!port_configured(p, existing));
            assert(fuel > 0);
            let ok = binds(p);
            assert(port_search(existing, binds, last, fuel) == port_search(
                existing,
                binds,
                Some((p, ok)),
                (fuel - 1) as nat,
            ));
            if ok {
                assert(least_bindable_port(existing, binds, p as int) == Some(p));
            } else {
                assert(least_bindable_port(existing, binds, p as int) == least_bindable_port(
                    existing,
                    binds,
                    p + 1,
                ));
                lemma_port_search_from(existing, binds, p + 1, Some((p, false)), (fuel - 1) as nat);
            }
        },
    }
}

/// The automatic port search, each probe answered by whether the system
/// lets the port be bound, settles within the 81 ports of the range on the
/// least port of 51820..=51900 that no other server has and that binds, or
/// finds none.
pub proof fn lemma_port_search(existing: Seq<u16>, binds: spec_fn(u16) -> bool)
    ensures
        port_search(existing, binds, None, 81) == port_outcome(
            least_bindable_port(existing, binds, PORT_RANGE_START as int),
        ),
{
    lemma_port_search_from(existing, binds, PORT_RANGE_START as int, None, 81);
}

// ---------------------------------------------------------------------------
// Finding the endpoint
// ---------------------------------------------------------------------------

pub open spec fn blank_line() -> Seq<char> {
    seq!['\r', '\n', '\r', '\n']
}

/// The public address in the reply of `checkip.amazonaws.com`: the body
/// after the first blank line, trimmed, if it is an IP address of one of
/// the system's networks.
pub open spec fn endpoint_from_response_spec(response: Seq<char>, sys: Seq<IpNet>) -> Option<Seq<char>> {
    match find_from(response, blank_line(), 0) {
        None => None,
        Some(k) => {
            let body = trim(response.skip(k + 4));
            if body.len() == 0 {
                None
            } else {
                match parse_ip(body) {
                    None => None,
                    Some(a) => {
                        if exists|j: int| 0 <= j < sys.len() && (#[trigger] sys[j]).addr == a {
                            Some(body)
                        } else {
                            None
                        }
                    },
                }
            }
        },
    }
}

/// The reply's address is accepted wherever the system lists it: when the
/// text after the reply's first blank line, trimmed, is an IP address that
/// a network of the system has, at any position `j` of the list, that text
/// is the endpoint; when no network of the system has it, there is none.
pub proof fn lemma_endpoint_any_position(response: Seq<char>, sys: Seq<IpNet>, k: int, j: int)
    requires
        find_from(response, blank_line(), 0) == Some(k),
        parse_ip(trim(response.skip(k + 4))) is Some,
    ensures
        0 <= j < sys.len() && sys[j].addr == parse_ip(trim(response.skip(k + 4)))->0
            ==> endpoint_from_response_spec(response, sys) == Some(trim(response.skip(k + 4))),
        (forall|i: int| 0 <= i < sys.len() ==> (#[trigger] sys[i]).addr != parse_ip(
            trim(response.skip(k + 4)),
        )->0) ==> endpoint_from_response_spec(response, sys) is None,
{
    let body = trim(response.skip(k + 4));
    if body.len() == 0 {
        crate::ip_text::lemma_parse_ip_empty(body);
    }
}

/// Listing more networks of the system, anywhere in the list, keeps an
/// endpoint that was found.
pub proof fn lemma_endpoint_more_networks(response: Seq<char>, sys: Seq<IpNet>, more: Seq<IpNet>)
    requires
        forall|i: int| 0 <= i < sys.len() ==> more.contains(#[trigger] sys[i]),
    ensures
        endpoint_from_response_spec(response, sys) is Some ==> endpoint_from_response_spec(
            response,
            more,
        ) == endpoint_from_response_spec(response, sys),
{
    if let Some(k) = find_from(response, blank_line(), 0) {
        let body = trim(response.skip(k + 4));
        if let Some(a) = parse_ip(body) {
            if exists|j: int| 0 <= j < sys.len() && (#[trigger] sys[j]).addr == a {
                let j = choose|j: int| 0 <= j < sys.len() && (#[trigger] sys[j]).addr == a;
                assert(more.contains(sys[j]));
                let m = choose|m: int| 0 <= m < more.len() && more[m] == sys[j];
                assert(more[m].addr == a);
            }
        }
    }
}

/// Whether one of the networks has the address `ip`.
fn has_address(nets: &Vec<IpNet>, ip: &IpAddress) -> (r: bool)
    ensures
        r == exists|j: int| 0 <= j < nets@.len() && (#[trigger] nets@[j]).addr == *ip,
{
    let mut j: usize = 0;
    while j < nets.len()
        invariant
            j <= nets@.len(),
            forall|i: int| 0 <= i < j ==> (#[trigger] nets@[i]).addr != *ip,
        decreases nets@.len() - j,
    {
        if nets[j].addr == *ip {
            return true;
        }
        j = j + 1;
    }
    false
}

fn find_blank_line(s: &Vec<char>) -> (r: Option<usize>)
    ensures
        r matches Some(k) ==> find_from(s@, blank_line(), 0) == Some(k as int) && k + 4 <= s@.len(),
        r is None ==> find_from(s@, blank_line(), 0) is None,
{
    let mut j: usize = 0;
    while j < s.len()
        invariant
            j <= s@.len(),
            find_from(s@, blank_line(), 0) == find_from(s@, blank_line(), j as int),
        decreases s@.len() - j,
    {
        if s.len() - j > 3 {
            assert(s@.subrange(j as int, j + 4) =~= seq![
                s@[j as int],
                s@[j + 1],
                s@[j + 2],
                s@[j + 3],
            ]);
            if s[j] == '\r' && s[j + 1] == '\n' && s[j + 2] == '\r' && s[j + 3] == '\n' {
                return Some(j);
            }
        }
        j = j + 1;
    }
    None
}

impl Server {
    /// The endpoint asked for, unless it is blank.
    pub fn resolve_endpoint(endpoint: String) -> (r: Result<String>)
        ensures
            trim(endpoint@).len() == 0 ==> r == Err::<String, AwgctlError>(
                AwgctlError::EmptyEndpoint,
            ),
            trim(endpoint@).len() != 0 ==> r == Ok::<String, AwgctlError>(endpoint),
    {
        if is_blank(endpoint.as_str()) {
            Err(AwgctlError::EmptyEndpoint)
        } else {
            Ok(endpoint)
        }
    }

    /// The public endpoint from the HTTP reply of `checkip.amazonaws.com`:
    /// the trimmed body, which must be an IP address of one of the system's
    /// networks.
    pub fn endpoint_from_response(response: &str, sys_addrs: &Vec<IpNet>) -> (r: Result<String>)
        ensures
            match endpoint_from_response_spec(response@, sys_addrs@) {
                Some(s) => r matches Ok(t) && t@ == s,
                None => r == Err::<String, AwgctlError>(AwgctlError::EndpointResolutionFailed),
            },
    {
        let v = chars_of(response);
        let k = match find_blank_line(&v) {
            Some(k) => k,
            None => {
                return Err(AwgctlError::EndpointResolutionFailed);
            },
        };
        let n = v.len();
        assert(k + 4 <= n);
        let after = sub_vec(&v, k + 4, n);
        assert(after@ =~= v@.skip(k + 4));
        let (a, b) = trim_bounds(&after);
        if a == b {
            return Err(AwgctlError::EndpointResolutionFailed);
        }
        let body = sub_vec(&after, a, b);
        let ip = match parse_ip_chars(&body) {
            Some(ip) => ip,
            None => {
                return Err(AwgctlError::EndpointResolutionFailed);
            },
        };
        if has_address(sys_addrs, &ip) {
            Ok(string_of(body.as_slice()))
        } else {
            Err(AwgctlError::EndpointResolutionFailed)
        }
    }
}

} // verus!
