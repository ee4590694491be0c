//! Clients of a server: what a client holds, the checks a stored client must
//! pass, the addresses given to a new one, and what its exported
//! configuration takes from the server.
use crate::commands::AddArgs;
use crate::errors::{AwgctlError, Result};
use crate::net::{IpAddress, IpNet};
use crate::server::{PeerConfig, PeerKey, Server, copy_nets, fmt_nets, nets_text};
use crate::text::{dec_string, first_false, fmt_dec, join, join_strings, views};
use crate::util::{
    Dated, Listable, client_ip_ok, client_validate_ip, client_validate_ip_spec, contains_addr, dns_flags,
    find_invalid_dns, in_some_net, in_some_net_exec, name_taken, addr_taken, sort_by_created,
    sorted_by_created, stable_permutation, valid_name_chars, validate_name,
};
use vstd::prelude::*;

verus! {

/// A client of an AmneziaWG server: a peer of the server, with its own
/// name, creation time (nanoseconds since the Unix epoch), DNS setting and
/// gateway choice.
#[derive(Debug)]
pub struct Client {
    pub name: String,
    pub server: String,
    pub created_at: i128,
    /// DNS servers for this client, which replace the server's at export;
    /// `None` inherits the server's.
    pub dns: Option<Vec<String>>,
    /// Use the VPN as the default gateway.
    pub default_gateway: bool,
    pub peer: PeerConfig,
}

/// The DNS cell of a client: its servers, a dash for none, or `Inherit`.
pub open spec fn client_dns_text(dns: Option<Vec<String>>) -> Seq<char> {
    match dns {
        Some(d) => {
            if d@.len() > 0 {
                join(views(d@), ", "@)
            } else {
                "—"@
            }
        },
        None => "Inherit"@,
    }
}

impl Listable for Client {
    open spec fn header_cells(verbose: bool) -> Seq<Seq<char>> {
        if verbose {
            seq!["Name"@, "Address"@, "DNS"@, "Gateway"@, "Keepalive"@]
        } else {
            seq!["Name"@, "Address"@, "DNS"@, "Gateway"@]
        }
    }

    open spec fn row_cells(&self, verbose: bool) -> Seq<Seq<char>> {
        let base = seq![
            self.name@,
            nets_text(self.peer.allowed_ips@),
            client_dns_text(self.dns),
            if self.default_gateway {
                "Yes"@
            } else {
                "No"@
            },
        ];
        if verbose {
            base.push(
                if self.peer.persistent_keepalive == 0 {
                    "No"@
                } else {
                    dec_string(self.peer.persistent_keepalive as nat)
                },
            )
        } else {
            base
        }
    }

    open spec fn can_list(&self) -> bool {
        true
    }

    fn headers(verbose: bool) -> (r: Vec<&'static str>) {
        let r = if verbose {
            vec!["Name", "Address", "DNS", "Gateway", "Keepalive"]
        } else {
            vec!["Name", "Address", "DNS", "Gateway"]
        };
        assert(r@.map_values(|h: &'static str| h@) =~= Self::header_cells(verbose));
        r
    }

    fn row(&self, verbose: bool) -> (r: Vec<String>) {
        let address = fmt_nets(&self.peer.allowed_ips);
        let dns = match &self.dns {
            Some(d) => {
                if d.len() > 0 {
                    join_strings(d, ", ")
                } else {
                    String::from_str("—")
                }
            },
            None => String::from_str("Inherit"),
        };
        let gateway = if self.default_gateway {
            String::from_str("Yes")
        } else {
            String::from_str("No")
        };
        let mut r = vec![self.name.clone(), address, dns, gateway];
        if verbose {
            let k = if self.peer.persistent_keepalive == 0 {
                String::from_str("No")
            } else {
                fmt_dec(self.peer.persistent_keepalive as u64)
            };
            r.push(k);
        }
        assert(views(r@) =~= self.row_cells(verbose));
        r
    }
}

impl Dated for Client {
    open spec fn created(&self) -> int {
        self.created_at as int
    }

    fn created_at(&self) -> (r: i128) {
        self.created_at
    }
}

/// What a stored client must hold: an allowed IP, and valid DNS entries if
/// it has its own; the first that fails is the error.
pub open spec fn client_check(c: &Client) -> Option<AwgctlError> {
    if c.peer.allowed_ips@.len() == 0 {
        Some(AwgctlError::ClientInvalid("no allowed ips"))
    } else {
        match c.dns {
            Some(d) => match first_false(dns_flags(d@)) {
                Some(i) => Some(AwgctlError::InvalidDnsEntry(d@[i])),
                None => None,
            },
            None => None,
        }
    }
}

// ---------------------------------------------------------------------------
// Addresses of a new client
// ---------------------------------------------------------------------------

/// The address of the family of `a` with numeric value `v`.
pub open spec fn addr_like(a: IpAddress, v: int) -> IpAddress {
    match a {
        IpAddress::V4(_) => IpAddress::V4(v as u32),
        IpAddress::V6(_) => IpAddress::V6(v as u128),
    }
}

/// The prefix of a single host of the family of `a`: 32 or 128.
pub open spec fn host_prefix(a: IpAddress) -> u8 {
    if a.is_v4() {
        32
    } else {
        128
    }
}

/// The first and last host of a network, as `ipnet`'s `hosts()` yields
/// them: for IPv4 with a prefix shorter than 31 the network and broadcast
/// addresses are left out.
pub open spec fn host_range(n: IpNet) -> (int, int) {
    if n.addr.is_v4() && n.prefix < 31 {
        (n.network() as int + 1, n.broadcast() as int - 1)
    } else {
        (n.network() as int, n.broadcast() as int)
    }
}

/// The first host from `cur` to `hi` whose address is not taken.
pub open spec fn first_free_host(n: IpNet, used: Seq<IpAddress>, cur: int, hi: int) -> Option<int>
    decreases hi + 1 - cur,
{
    if cur > hi {
        None
    } else if !addr_taken(addr_like(n.addr, cur), used) {
        Some(cur)
    } else {
        first_free_host(n, used, cur + 1, hi)
    }
}

/// The addresses taken in a server: those of its clients and its own.
pub open spec fn used_addrs(existing: Seq<IpNet>, server_ips: Seq<IpNet>) -> Seq<IpAddress> {
    (existing + server_ips).map_values(|n: IpNet| n.addr)
}

/// The addresses of a new client: those asked for, if they pass
/// `client_validate_ip`; otherwise the first host of the server's first
/// subnet that is not taken, as a single host (`/32` or `/128`).
pub open spec fn client_resolve_ip_spec(
    ips: Seq<IpNet>,
    existing: Seq<IpNet>,
    server_ips: Seq<IpNet>,
) -> Result<Seq<IpNet>> {
    let used = used_addrs(existing, server_ips);
    if ips.len() > 0 {
        match client_validate_ip_spec(ips, used, server_ips) {
            None => Ok(ips),
            Some(e) => Err(e),
        }
    } else {
        let primary = server_ips[0];
        let (lo, hi) = host_range(primary);
        match first_free_host(primary, used, lo, hi) {
            Some(h) => Ok(seq![IpNet { addr: addr_like(primary.addr, h), prefix: host_prefix(primary.addr) }]),
            None => Err(AwgctlError::NoAvailableAddress(primary)),
        }
    }
}

fn used_addrs_exec(existing: &Vec<IpNet>, server_ips: &Vec<IpNet>) -> (r: Vec<IpAddress>)
    ensures
        r@ == used_addrs(existing@, server_ips@),
{
    let ghost all = existing@ + server_ips@;
    let mut r: Vec<IpAddress> = Vec::new();
    let mut i: usize = 0;
    while i < existing.len()
        invariant
            i <= existing@.len(),
            all == existing@ + server_ips@,
            r@ == all.take(i as int).map_values(|n: IpNet| n.addr),
        decreases existing@.len() - i,
    {
        r.push(existing[i].addr);
        i = i + 1;
        assert(r@ =~= all.take(i as int).map_values(|n: IpNet| n.addr));
    }
    let mut j: usize = 0;
    while j < server_ips.len()
        invariant
            j <= server_ips@.len(),
            all == existing@ + server_ips@,
            r@ == all.take(existing@.len() + j).map_values(|n: IpNet| n.addr),
        decreases server_ips@.len() - j,
    {
        r.push(server_ips[j].addr);
        j = j + 1;
        assert(r@ =~= all.take(existing@.len() + j).map_values(|n: IpNet| n.addr));
    }
    assert(all.take(all.len() as int) =~= all);
    r
}

fn addr_like_exec(a: &IpAddress, v: u128) -> (r: IpAddress)
    ensures
        r == addr_like(*a, v as int),
{
    match a {
        IpAddress::V4(_) => IpAddress::V4(v as u32),
        IpAddress::V6(_) => IpAddress::V6(v),
    }
}

proof fn lemma_first_free_host_skip(n: IpNet, used: Seq<IpAddress>, lo: int, cur: int, hi: int)
    requires
        lo <= cur,
        forall|v: int| lo <= v < cur ==> addr_taken(#[trigger] addr_like(n.addr, v), used),
    ensures
        first_free_host(n, used, lo, hi) == first_free_host(n, used, cur, hi),
    decreases cur - lo,
{
    if lo < cur && lo <= hi {
        lemma_first_free_host_skip(n, used, lo + 1, cur, hi);
    }
}

proof fn lemma_first_free_host_found(n: IpNet, used: Seq<IpAddress>, cur: int, hi: int)
    ensures
        first_free_host(n, used, cur, hi) matches Some(h) ==> cur <= h <= hi && !addr_taken(
            addr_like(n.addr, h),
            used,
        ),
    decreases hi + 1 - cur,
{
    if cur <= hi && addr_taken(addr_like(n.addr, cur), used) {
        lemma_first_free_host_found(n, used, cur + 1, hi);
    }
}

/// An address between a network's first and last, as a single host, lies
/// within the network.
proof fn lemma_host_in_net(n: IpNet, h: int)
    requires
        n.network() <= h <= n.broadcast(),
    ensures
        n.contains_net(IpNet { addr: addr_like(n.addr, h), prefix: host_prefix(n.addr) }),
{
    let m = IpNet { addr: addr_like(n.addr, h), prefix: host_prefix(n.addr) };
    crate::net::lemma_value_bound(n.addr);
    crate::net::lemma_family_sizes();
    vstd::arithmetic::power2::lemma_pow2_pos(n.host_bits());
    crate::net::lemma_network_fits(n.addr.value(), n.host_bits(), n.addr.bits());
    assert(m.addr.value() == h);
    assert(m.host_bits() == 0);
    vstd::arithmetic::power2::lemma2_to64();
    assert(m.block() == 1);
    assert(m.network() == h);
}

/// The addresses that a new client gets, asked for or chosen, are at least
/// one, and each is taken by no other client nor the server and lies within
/// a subnet of the server.
pub proof fn lemma_client_resolve_ip_ok(ips: Seq<IpNet>, existing: Seq<IpNet>, server_ips: Seq<IpNet>)
    requires
        ips.len() > 0 || server_ips.len() > 0,
    ensures
        client_resolve_ip_spec(ips, existing, server_ips) matches Ok(a) ==> {
            &&& a.len() > 0
            &&& forall|i: int|
                0 <= i < a.len() ==> client_ip_ok(
                    #[trigger] a[i],
                    used_addrs(existing, server_ips),
                    server_ips,
                )
        },
{
    let used = used_addrs(existing, server_ips);
    if ips.len() > 0 {
        let f = crate::util::client_ip_flags(ips, used, server_ips);
        crate::text::lemma_first_false_some(f);
        if first_false(f) is None {
            assert forall|i: int| 0 <= i < ips.len() implies client_ip_ok(
                #[trigger] ips[i],
                used,
                server_ips,
            ) by {
                assert(f[i]);
            }
        }
    } else {
        let primary = server_ips[0];
        let (lo, hi) = host_range(primary);
        lemma_first_free_host_found(primary, used, lo, hi);
        if let Some(h) = first_free_host(primary, used, lo, hi) {
            let m = IpNet { addr: addr_like(primary.addr, h), prefix: host_prefix(primary.addr) };
            lemma_host_in_net(primary, h);
            assert(server_ips[0].contains_net(m));
            assert(seq![m][0] == m);
        }
    }
}

/// A client that `add` makes passes the checks of a stored client, has a
/// valid name that no other client of the server has, and addresses that
/// neither another client nor the server has, each within a subnet of the
/// server.
pub proof fn lemma_new_client_ok(
    args: AddArgs,
    existing: Seq<Client>,
    old_server: Server,
    new_server: Server,
    key: PeerKey,
    created_at: i128,
    r: Result<Client>,
)
    requires
        new_client_outcome(args, existing, old_server, new_server, key, created_at, r),
        args.address@.len() > 0 || old_server.address@.len() > 0,
    ensures
        r matches Ok(c) ==> {
            &&& client_check(&c) is None
            &&& valid_name_chars(c.name@)
            &&& !name_taken(c.name@, client_names(existing))
            &&& forall|i: int|
                0 <= i < c.peer.allowed_ips@.len() ==> client_ip_ok(
                    #[trigger] c.peer.allowed_ips@[i],
                    used_addrs(client_ips(existing, existing.len() as int), old_server.address@),
                    old_server.address@,
                )
        },
{
    lemma_client_resolve_ip_ok(
        args.address@,
        client_ips(existing, existing.len() as int),
        old_server.address@,
    );
    if let Ok(c) = r {
        if let Ok(Some(d)) = new_client_dns(opt_vec_view(args.dns), args.no_dns) {
            crate::text::lemma_first_false_some(dns_flags(d));
            assert(c.dns matches Some(cd) && cd@ == d);
        }
    }
}

/// `PrivateKey::random()` of `wireguard_conf`, as its `Display` text: the
/// standard base64 of the key's 32 bytes (44 characters, which
/// `PrivateKey::try_from` accepts). Nothing more is stated of the key: it
/// is random.
#[verifier::external_body]
pub(crate) fn random_private_key() -> (r: String)
    ensures
        crate::export::key_decodes(r@),
{
    wireguard_conf::PrivateKey::random().to_string()
}

/// `OffsetDateTime::now_utc()` of `time`, in nanoseconds since the Unix
/// epoch. Nothing is stated of the value: it is the clock's.
#[verifier::external_body]
pub(crate) fn now_unix_nanos() -> i128 {
    time::OffsetDateTime::now_utc().unix_timestamp_nanos()
}

impl Client {
    /// The checks that loading a stored client makes: it must have an
    /// allowed IP, and its own DNS entries, if any, must be valid.
    pub fn validate(&self) -> (r: Result<()>)
        ensures
            match client_check(self) {
                Some(e) => r == Err::<(), AwgctlError>(e),
                None => r is Ok,
            },
    {
        if self.peer.allowed_ips.len() == 0 {
            return Err(AwgctlError::ClientInvalid("no allowed ips"));
        }
        match &self.dns {
            Some(d) => {
                let found = find_invalid_dns(d);
                match found {
                    Some(i) => Err(AwgctlError::InvalidDnsEntry(d[i].clone())),
                    None => Ok(()),
                }
            },
            None => Ok(()),
        }
    }

    /// The addresses of a new client. Those asked for must not be taken by
    /// another client or the server, and must lie within a subnet of the
    /// server; with none asked for, the client gets the first host of the
    /// server's first subnet that is not taken.
    pub fn resolve_ip(ips: Vec<IpNet>, existing: &Vec<IpNet>, server_ips: &Vec<IpNet>) -> (r: Result<
        Vec<IpNet>,
    >)
        requires
            ips@.len() > 0 || server_ips@.len() > 0,
        ensures
            match client_resolve_ip_spec(ips@, existing@, server_ips@) {
                Ok(v) => r matches Ok(w) && w@ == v,
                Err(e) => r == Err::<Vec<IpNet>, AwgctlError>(e),
            },
    {
        let used = used_addrs_exec(existing, server_ips);
        if ips.len() > 0 {
            return client_validate_ip(ips, &used, server_ips);
        }
        let primary = server_ips[0];
        let (net, bc) = primary.bounds();
        let v4 = primary.addr.is_ipv4();
        let (lo, hi): (u128, u128) = if v4 && primary.prefix < 31 {
            proof {
                crate::net::lemma_value_bound(primary.addr);
                crate::net::lemma_family_sizes();
                vstd::arithmetic::power2::lemma_pow2_strictly_increases(1, primary.host_bits());
                vstd::arithmetic::power2::lemma2_to64();
                crate::net::lemma_network_fits(
                    primary.addr.value(),
                    primary.host_bits(),
                    primary.addr.bits(),
                );
            }
            (net + 1, bc - 1)
        } else {
            (net, bc)
        };
        assert(host_range(primary) == (lo as int, hi as int));
        if lo > hi {
            return Err(AwgctlError::NoAvailableAddress(primary));
        }
        let mut cur = lo;
        loop
            invariant
                lo <= cur <= hi,
                ips@.len() == 0,
                primary == server_ips@[0],
                v4 == primary.addr.is_v4(),
                host_range(primary) == (lo as int, hi as int),
                used@ == used_addrs(existing@, server_ips@),
                forall|v: int| lo <= v < cur ==> addr_taken(#[trigger] addr_like(primary.addr, v), used@),
            decreases hi - cur,
        {
            let a = addr_like_exec(&primary.addr, cur);
            if !contains_addr(&used, &a) {
                proof {
                    lemma_first_free_host_skip(primary, used@, lo as int, cur as int, hi as int);
                }
                let n = IpNet {
                    addr: a,
                    prefix: if v4 {
                        32
                    } else {
                        128
                    },
                };
                let r = vec![n];
                assert(r@ =~= seq![n]);
                return Ok(r);
            }
            if cur == hi {
                proof {
                    lemma_first_free_host_skip(primary, used@, lo as int, cur as int, hi as int);
                    assert(addr_taken(addr_like(primary.addr, cur as int), used@));
                    assert(first_free_host(primary, used@, cur + 1, hi as int) is None);
                    assert(first_free_host(primary, used@, cur as int, hi as int) is None);
                }
                return Err(AwgctlError::NoAvailableAddress(primary));
            }
            cur = cur + 1;
        }
    }
}

// ---------------------------------------------------------------------------
// A new client
// ---------------------------------------------------------------------------

/// For each address, whether it lies within one of the networks.
pub open spec fn subnet_flags(ips: Seq<IpNet>, nets: Seq<IpNet>) -> Seq<bool> {
    ips.map_values(|ip: IpNet| in_some_net(ip, nets))
}

/// The names of the clients.
pub open spec fn client_names(clients: Seq<Client>) -> Seq<String> {
    clients.map_values(|c: Client| c.name)
}

/// The allowed IPs of the first `n` clients, in order.
pub open spec fn client_ips(clients: Seq<Client>, n: int) -> Seq<IpNet>
    decreases n,
{
    if n <= 0 {
        Seq::empty()
    } else {
        client_ips(clients, n - 1) + clients[n - 1].peer.allowed_ips@
    }
}

pub open spec fn opt_vec_view(d: Option<Vec<String>>) -> Option<Seq<String>> {
    match d {
        Some(v) => Some(v@),
        None => None,
    }
}

/// The DNS setting of a new client: none of its own with `--no-dns`
/// (an empty list), the entries given if all are valid, or none, which
/// inherits the server's.
pub open spec fn new_client_dns(dns: Option<Seq<String>>, no_dns: bool) -> Result<
    Option<Seq<String>>,
> {
    if no_dns {
        Ok(Some(Seq::empty()))
    } else {
        match dns {
            None => Ok(None),
            Some(d) => match first_false(dns_flags(d)) {
                None => Ok(Some(d)),
                Some(i) => Err(AwgctlError::InvalidDnsEntry(d[i])),
            },
        }
    }
}

/// The name and DNS setting of a new client pass their checks.
pub open spec fn new_client_prefix_ok(args: AddArgs, existing: Seq<Client>) -> bool {
    &&& valid_name_chars(args.client@)
    &&& !name_taken(args.client@, client_names(existing))
    &&& new_client_dns(opt_vec_view(args.dns), args.no_dns) is Ok
}

/// What adding a client gives: the errors of the name, DNS and address
/// checks, in that order; or the new client, whose peer the server gains.
pub open spec fn new_client_outcome(
    args: AddArgs,
    existing: Seq<Client>,
    old_server: Server,
    new_server: Server,
    key: PeerKey,
    created_at: i128,
    r: Result<Client>,
) -> bool {
    &&& !valid_name_chars(args.client@) ==> r == Err::<Client, AwgctlError>(
        AwgctlError::InvalidName(args.client),
    )
    &&& valid_name_chars(args.client@) && name_taken(args.client@, client_names(existing))
        ==> r == Err::<Client, AwgctlError>(AwgctlError::NameAlreadyExists(args.client))
    &&& valid_name_chars(args.client@) && !name_taken(args.client@, client_names(existing))
        ==> match new_client_dns(opt_vec_view(args.dns), args.no_dns) {
        Err(e) => r == Err::<Client, AwgctlError>(e),
        Ok(dns) => match client_resolve_ip_spec(
            args.address@,
            client_ips(existing, existing.len() as int),
            old_server.address@,
        ) {
            Err(e) => r == Err::<Client, AwgctlError>(e),
            Ok(ips) => r matches Ok(c) && {
                &&& c.name == args.client
                &&& c.server == args.server
                &&& c.created_at == created_at
                &&& c.default_gateway == args.default_gateway
                &&& opt_vec_view(c.dns) == dns
                &&& c.peer.allowed_ips@ == ips
                &&& c.peer.persistent_keepalive == match args.keepalive {
                    Some(k) => k,
                    None => 0u16,
                }
                &&& c.peer.key == key
                &&& new_server.peers@.len() == old_server.peers@.len() + 1
                &&& new_server.peers@.drop_last() == old_server.peers@
                &&& new_server.peers@.last().allowed_ips@ == ips
                &&& new_server.peers@.last().persistent_keepalive == c.peer.persistent_keepalive
                &&& new_server.peers@.last().key == key
            },
        },
    }
    &&& r is Err ==> new_server == old_server
    &&& new_server.name == old_server.name
    &&& new_server.created_at == old_server.created_at
    &&& new_server.address == old_server.address
    &&& new_server.listen_port == old_server.listen_port
    &&& new_server.endpoint == old_server.endpoint
    &&& new_server.dns == old_server.dns
    &&& new_server.mtu == old_server.mtu
    &&& new_server.private_key == old_server.private_key
    &&& new_server.amnezia == old_server.amnezia
}

fn client_names_exec(clients: &Vec<Client>) -> (r: Vec<String>)
    ensures
        r@ == client_names(clients@),
{
    let mut r: Vec<String> = Vec::new();
    let mut i: usize = 0;
    while i < clients.len()
        invariant
            i <= clients@.len(),
            r@ == client_names(clients@.take(i as int)),
        decreases clients@.len() - i,
    {
        r.push(clients[i].name.clone());
        i = i + 1;
        assert(r@ =~= client_names(clients@.take(i as int)));
    }
    assert(clients@.take(clients@.len() as int) =~= clients@);
    r
}

fn client_ips_exec(clients: &Vec<Client>) -> (r: Vec<IpNet>)
    ensures
        r@ == client_ips(clients@, clients@.len() as int),
{
    let mut r: Vec<IpNet> = Vec::new();
    let mut i: usize = 0;
    while i < clients.len()
        invariant
            i <= clients@.len(),
            r@ == client_ips(clients@, i as int),
        decreases clients@.len() - i,
    {
        let a = &clients[i].peer.allowed_ips;
        let ghost before = r@;
        let mut j: usize = 0;
        while j < a.len()
            invariant
                j <= a@.len(),
                r@ == before + a@.take(j as int),
            decreases a@.len() - j,
        {
            r.push(a[j]);
            j = j + 1;
            assert(r@ =~= before + a@.take(j as int));
        }
        assert(a@.take(a@.len() as int) =~= a@);
        i = i + 1;
    }
    r
}

impl Client {
    /// A new client of `server`, as the peer `key`, created at `created_at`.
    /// Its name must be valid and not another client's; its DNS entries,
    /// unless `no_dns`, must be valid; its addresses are resolved as
    /// `resolve_ip` does among the other clients' addresses. The new peer is
    /// added to the server's peers; on any error the server is unchanged.
    pub fn new_with(
        args: AddArgs,
        existing: &Vec<Client>,
        server: &mut Server,
        key: PeerKey,
        created_at: i128,
    ) -> (r: Result<Client>)
        requires
            args.address@.len() > 0 || old(server).address@.len() > 0 || !new_client_prefix_ok(
                args,
                existing@,
            ),
        ensures
            new_client_outcome(args, existing@, *old(server), *final(server), key, created_at, r),
    {
        let names = client_names_exec(existing);
        let AddArgs { server: server_name, client, address, default_gateway, dns, no_dns, keepalive } = args;
        let name = match validate_name(client, &names) {
            Ok(n) => n,
            Err(e) => {
                return Err(e);
            },
        };
        let dns: Option<Vec<String>> = if no_dns {
            Some(Vec::new())
        } else {
            match dns {
                None => None,
                Some(d) => match crate::util::validate_dns(d) {
                    Ok(d) => Some(d),
                    Err(e) => {
                        return Err(e);
                    },
                },
            }
        };
        proof {
            if no_dns {
                assert(opt_vec_view(dns) =~= Some(Seq::<String>::empty()));
            }
        }
        let used = client_ips_exec(existing);
        let ips = match Client::resolve_ip(address, &used, &server.address) {
            Ok(ips) => ips,
            Err(e) => {
                return Err(e);
            },
        };
        let peer = PeerConfig {
            allowed_ips: ips,
            persistent_keepalive: match keepalive {
                Some(k) => k,
                None => 0,
            },
            key,
        };
        server.peers.push(peer.copy());
        proof {
            assert(server.peers@.drop_last() =~= old(server).peers@);
        }
        Ok(Client { name, server: server_name, created_at, dns, default_gateway, peer })
    }

    /// A new client of `server` with a fresh random private key, created now
    /// (see `new_with`).
    pub fn new(args: AddArgs, existing: &Vec<Client>, server: &mut Server) -> (r: Result<Client>)
        requires
            args.address@.len() > 0 || old(server).address@.len() > 0 || !new_client_prefix_ok(
                args,
                existing@,
            ),
        ensures
            exists|k: String, t: i128|
                crate::export::key_decodes(k@) && new_client_outcome(
                    args,
                    existing@,
                    *old(server),
                    *final(server),
                    PeerKey::Private(k),
                    t,
                    r,
                ),
    {
        let key = random_private_key();
        let now = now_unix_nanos();
        let ghost k = key;
        let r = Client::new_with(args, existing, server, PeerKey::Private(key), now);
        assert(new_client_outcome(args, existing@, *old(server), *server, PeerKey::Private(k), now, r));
        r
    }

    /// The clients ordered by creation time; clients created at the same
    /// time keep their order.
    pub fn list(clients: Vec<Client>) -> (r: Vec<Client>)
        ensures
            sorted_by_created(r@),
            exists|p: Seq<int>| stable_permutation(p, clients@, r@),
    {
        sort_by_created(clients)
    }

    /// Removes this client's peer from its server: the server keeps every
    /// peer whose key differs.
    pub fn remove_from(&self, server: &mut Server)
        ensures
            final(server).peers@ == old(server).peers@.filter(
                |p: PeerConfig| p.key.key_view() != self.peer.key.key_view(),
            ),
            final(server).name == old(server).name,
            final(server).created_at == old(server).created_at,
            final(server).address == old(server).address,
            final(server).listen_port == old(server).listen_port,
            final(server).endpoint == old(server).endpoint,
            final(server).dns == old(server).dns,
            final(server).mtu == old(server).mtu,
            final(server).private_key == old(server).private_key,
            final(server).amnezia == old(server).amnezia,
    {
        server.remove_peer(&self.peer.key);
    }

    /// The check that exporting makes before the configuration is built:
    /// every allowed IP must lie within a subnet of the server; the first
    /// that does not is the error.
    pub fn check_subnet(&self, server_ips: &Vec<IpNet>) -> (r: Result<()>)
        ensures
            match first_false(subnet_flags(self.peer.allowed_ips@, server_ips@)) {
                Some(i) => r == Err::<(), AwgctlError>(
                    AwgctlError::AddressOutsideSubnet(self.peer.allowed_ips@[i]),
                ),
                None => r is Ok,
            },
    {
        let a = &self.peer.allowed_ips;
        let ghost f = subnet_flags(a@, server_ips@);
        let mut i: usize = 0;
        while i < a.len()
            invariant
                i <= a@.len(),
                f == subnet_flags(a@, server_ips@),
                a@ == self.peer.allowed_ips@,
                forall|j: int| 0 <= j < i ==> f[j],
            decreases a@.len() - i,
        {
            if !in_some_net_exec(&a[i], server_ips) {
                proof {
                    crate::text::lemma_first_false_at(f, i as int);
                }
                return Err(AwgctlError::AddressOutsideSubnet(a[i]));
            }
            i = i + 1;
        }
        proof {
            crate::text::lemma_first_false_none(f);
        }
        Ok(())
    }

    /// The DNS servers of the exported configuration: the client's own, if
    /// it has any setting (an empty one included), else the server's.
    pub fn export_dns(&self, server_dns: &Vec<String>) -> (r: Vec<String>)
        ensures
            r@ == match self.dns {
                Some(d) => d@,
                None => server_dns@,
            },
    {
        let src = match &self.dns {
            Some(d) => d,
            None => server_dns,
        };
        let mut r: Vec<String> = Vec::new();
        let mut i: usize = 0;
        while i < src.len()
            invariant
                i <= src@.len(),
                r@ == src@.take(i as int),
            decreases src@.len() - i,
        {
            r.push(src[i].clone());
            i = i + 1;
            assert(r@ =~= src@.take(i as int));
        }
        assert(src@.take(src@.len() as int) =~= src@);
        r
    }
}

/// What DNS an exported configuration carries, by the options of `add`:
/// none with `--no-dns`, the entries given with `--dns`, otherwise the
/// server's.
pub proof fn lemma_export_dns_follows_options(
    dns: Option<Seq<String>>,
    no_dns: bool,
    server_dns: Seq<String>,
)
    requires
        new_client_dns(dns, no_dns) is Ok,
    ensures
        ({
            let chosen = new_client_dns(dns, no_dns)->Ok_0;
            let exported = match chosen {
                Some(d) => d,
                None => server_dns,
            };
            &&& no_dns ==> exported == Seq::<String>::empty()
            &&& !no_dns && dns is Some ==> exported == dns->0
            &&& !no_dns && dns is None ==> exported == server_dns
        }),
{
}

} // verus!
