//! What `export` writes of a client's configuration: the interface that
//! `Peer::to_interface` of `wireguard_conf` makes of the client's peer and
//! its server, as plain values; its text; and the QR code of the text.
use crate::amnezia::{
    Amnezia, AmneziaView, HSpan, amnezia_text, opt_amnezia_from_text, opt_amnezia_text_of,
    opt_amnezia_view, opt_strip, wg_amnezia,
};
use crate::client::{Client, subnet_flags};
use crate::errors::{AwgctlError, Result};
use crate::net::{IpAddress, IpNet};
use crate::new_server::opt_string_view;
use crate::server::{PeerKey, Server, copy_nets};
use crate::text::{dec_string, first_false, views};
use vstd::prelude::*;
use vstd::string::StringSliceAdditionalSpecFns;
use wireguard_conf::ipnet::{IpNet as WgNet, Ipv4Net, Ipv6Net};
use wireguard_conf::{Interface, Peer, PrivateKey, PublicKey, ToInterfaceOptions, WireguardError};

verus! {

/// The SVG image of the QR code of `data` that `qrcode` draws: at least
/// 200×200 pixels, dark modules black, light ones white; `None` when `data`
/// does not fit in a QR code.
pub uninterp spec fn qr_svg_image(data: Seq<u8>) -> Option<Seq<char>>;

/// The QR code of `data` that `qrcode` draws in text with half-block
/// characters (two modules per character), colors inverted for a dark
/// terminal; `None` when `data` does not fit in a QR code.
pub uninterp spec fn qr_terminal_image(data: Seq<u8>) -> Option<Seq<char>>;

/// `QrCode::new(data)` rendered as SVG, at least 200×200, `#000000` on
/// `#ffffff`. The contract names the image; which `QrError` comes out when
/// the data does not fit is left unsaid.
#[verifier::external_body]
fn render_svg(data: &[u8]) -> (r: core::result::Result<String, qrcode::types::QrError>)
    ensures
        match qr_svg_image(data@) {
            Some(s) => r matches Ok(t) && t@ == s,
            None => r is Err,
        },
{
    match qrcode::QrCode::new(data) {
        Ok(code) => Ok(
            code.render().min_dimensions(200, 200).dark_color(
                qrcode::render::svg::Color("#000000"),
            ).light_color(qrcode::render::svg::Color("#ffffff")).build(),
        ),
        Err(e) => Err(e),
    }
}

/// `QrCode::new(data)` rendered with `unicode::Dense1x2`, dark modules drawn
/// light and light ones dark. The contract names the text; which `QrError`
/// comes out when the data does not fit is left unsaid.
#[verifier::external_body]
fn render_terminal(data: &[u8]) -> (r: core::result::Result<String, qrcode::types::QrError>)
    ensures
        match qr_terminal_image(data@) {
            Some(s) => r matches Ok(t) && t@ == s,
            None => r is Err,
        },
{
    match qrcode::QrCode::new(data) {
        Ok(code) => Ok(
            code.render::<qrcode::render::unicode::Dense1x2>().dark_color(
                qrcode::render::unicode::Dense1x2::Light,
            ).light_color(qrcode::render::unicode::Dense1x2::Dark).build(),
        ),
        Err(e) => Err(e),
    }
}

/// The QR code of a configuration: as an SVG image for a file (`svg`), or
/// as text for the terminal.
pub fn qr_image(config: &str, svg: bool) -> (r: Result<String>)
    ensures
        match (if svg {
            qr_svg_image(config.spec_bytes())
        } else {
            qr_terminal_image(config.spec_bytes())
        }) {
            Some(s) => r matches Ok(t) && t@ == s,
            None => r matches Err(AwgctlError::Qr(_)),
        },
{
    let bytes = config.as_bytes();
    let r = if svg {
        render_svg(bytes)
    } else {
        render_terminal(bytes)
    };
    match r {
        Ok(s) => Ok(s),
        Err(e) => Err(AwgctlError::Qr(e)),
    }
}


// ---------------------------------------------------------------------------
// The client's configuration as plain values
// ---------------------------------------------------------------------------

/// A `[Peer]` of a configuration, as plain values.
pub struct ConfPeer {
    pub endpoint: Option<String>,
    pub allowed_ips: Vec<IpNet>,
    /// The peer's key (base64); its public key is what the text shows.
    pub key: PeerKey,
    pub persistent_keepalive: u16,
}

/// A client's own configuration, the `Interface` that `Peer::to_interface`
/// makes, as plain values: no listen port, endpoint, table, MTU or hooks;
/// the client's addresses, private key (base64) and DNS servers, the
/// server's AmneziaWG settings without the server-only ones, and its peers
/// (the server).
pub struct ClientConf {
    pub address: Vec<IpNet>,
    pub private_key: String,
    pub dns: Vec<String>,
    pub amnezia: Option<Amnezia<HSpan>>,
    pub peers: Vec<ConfPeer>,
}

pub struct ConfPeerView {
    pub endpoint: Option<Seq<char>>,
    pub allowed_ips: Seq<IpNet>,
    pub key: (bool, Seq<char>),
    pub persistent_keepalive: u16,
}

/// A client's configuration as plain values.
pub struct ClientConfView {
    pub address: Seq<IpNet>,
    pub private_key: Seq<char>,
    pub dns: Seq<Seq<char>>,
    pub amnezia: Option<AmneziaView>,
    pub peers: Seq<ConfPeerView>,
}

impl View for ConfPeer {
    type V = ConfPeerView;

    open spec fn view(&self) -> ConfPeerView {
        ConfPeerView {
            endpoint: opt_string_view(self.endpoint),
            allowed_ips: self.allowed_ips@,
            key: self.key.key_view(),
            persistent_keepalive: self.persistent_keepalive,
        }
    }
}

impl View for ClientConf {
    type V = ClientConfView;

    open spec fn view(&self) -> ClientConfView {
        ClientConfView {
            address: self.address@,
            private_key: self.private_key@,
            dns: views(self.dns@),
            amnezia: opt_amnezia_view(self.amnezia),
            peers: self.peers@.map_values(|p: ConfPeer| p@),
        }
    }
}

/// For each network, whether it does not hold `a`.
pub open spec fn unheld_flags(nets: Seq<IpNet>, a: IpNet) -> Seq<bool> {
    nets.map_values(|n: IpNet| !n.contains_net(a))
}

/// The addresses of a client's configuration, as `to_interface` assigns
/// them: each allowed IP with the prefix of the first server network that
/// holds it; an allowed IP that none holds, or whose address does not take
/// that prefix, is left out.
pub open spec fn assigned_ips(allowed: Seq<IpNet>, server: Seq<IpNet>) -> Seq<IpNet>
    decreases allowed.len(),
{
    if allowed.len() == 0 {
        Seq::empty()
    } else {
        let rest = assigned_ips(allowed.drop_last(), server);
        let a = allowed.last();
        match first_false(unheld_flags(server, a)) {
            Some(k) => {
                let n = IpNet { addr: a.addr, prefix: server[k].prefix };
                if n.valid_prefix() {
                    rest.push(n)
                } else {
                    rest
                }
            },
            None => rest,
        }
    }
}

pub open spec fn any_v4(a: Seq<IpNet>) -> bool {
    exists|i: int| 0 <= i < a.len() && (#[trigger] a[i]).addr.is_v4()
}

pub open spec fn any_v6(a: Seq<IpNet>) -> bool {
    exists|i: int| 0 <= i < a.len() && !(#[trigger] a[i]).addr.is_v4()
}

/// The server's allowed IPs when it is the default gateway: `0.0.0.0/0` if
/// the client has an IPv4 address, then `::/0` if it has an IPv6 one.
pub open spec fn gateway_ips(assigned: Seq<IpNet>) -> Seq<IpNet> {
    (if any_v4(assigned) {
        seq![IpNet { addr: IpAddress::V4(0), prefix: 0 }]
    } else {
        Seq::empty()
    }) + (if any_v6(assigned) {
        seq![IpNet { addr: IpAddress::V6(0), prefix: 0 }]
    } else {
        Seq::empty()
    })
}

/// The server's endpoint as a peer: `<endpoint>:<listen port>`, 51820 when
/// it has no port.
pub open spec fn peer_endpoint(s: Server) -> Option<Seq<char>> {
    match s.endpoint {
        Some(e) => Some(
            e@ + seq![':'] + dec_string(
                match s.listen_port {
                    Some(p) => p as nat,
                    None => 51820,
                },
            ),
        ),
        None => None,
    }
}

/// The value of a character of the standard base64 alphabet.
pub open spec fn b64_value(c: char) -> Option<nat> {
    if 'A' <= c && c <= 'Z' {
        Some((c as int - 'A' as int) as nat)
    } else if 'a' <= c && c <= 'z' {
        Some((c as int - 'a' as int + 26) as nat)
    } else if '0' <= c && c <= '9' {
        Some((c as int - '0' as int + 52) as nat)
    } else if c == '+' {
        Some(62)
    } else if c == '/' {
        Some(63)
    } else {
        None
    }
}

/// A key text that `PrivateKey::try_from` and `PublicKey::try_from` accept:
/// `BASE64_STANDARD` (canonical padding, no trailing bits) decodes it to
/// exactly 32 bytes, which is 43 characters of the alphabet, the last of
/// them with its two low bits clear, then one `=`. This is also the text
/// that `Display` writes for a key.
pub open spec fn key_decodes(s: Seq<char>) -> bool {
    &&& s.len() == 44
    &&& s[43] == '='
    &&& forall|i: int| 0 <= i < 43 ==> (#[trigger] b64_value(s[i])) is Some
    &&& b64_value(s[42]).unwrap() % 4 == 0
}

/// The interface that `Peer::to_interface` makes of a peer with the
/// allowed IPs `allowed` and the private key `key` and of the server `s`,
/// with the options default gateway `dg` and keepalive `ka`: the assigned
/// addresses, the key, the server's DNS servers, the server's AmneziaWG
/// settings with the server-only I1–I5 cleared, and the server as peer, at
/// its endpoint, with its key,
/// allowing everything when it is the default gateway (else the server's
/// subnets), with the keepalive `ka`.
pub open spec fn to_interface_view(
    allowed: Seq<IpNet>,
    key: Seq<char>,
    s: Server,
    dg: bool,
    ka: u16,
) -> ClientConfView {
    let assigned = assigned_ips(allowed, s.address@);
    ClientConfView {
        address: assigned,
        private_key: key,
        dns: views(s.dns@),
        amnezia: opt_strip(opt_amnezia_view(s.amnezia)),
        peers: seq![
            ConfPeerView {
                endpoint: peer_endpoint(s),
                allowed_ips: if dg {
                    gateway_ips(assigned)
                } else {
                    s.address@
                },
                key: (true, s.private_key@),
                persistent_keepalive: ka,
            },
        ],
    }
}

/// The configuration that exporting `c` of the server `s` makes: what
/// `to_interface` makes of the client's peer with the client's options,
/// with the client's own DNS servers in place of the server's if it has a
/// setting (an empty one included).
pub open spec fn client_conf_spec(c: Client, s: Server) -> ClientConfView {
    let v = to_interface_view(
        c.peer.allowed_ips@,
        c.peer.key.key_view().1,
        s,
        c.default_gateway,
        c.peer.persistent_keepalive,
    );
    ClientConfView {
        dns: match c.dns {
            Some(d) => views(d@),
            None => v.dns,
        },
        ..v
    }
}

/// Whether `to_interface` makes a configuration of the client `c` and the
/// server `s`: the client has a private key, both keys parse, and an
/// allowed IP lies within a server subnet. Otherwise it fails with its own
/// error (no private key provided, an invalid key, no assigned IP).
pub open spec fn export_made(c: Client, s: Server) -> bool {
    &&& c.peer.key is Private
    &&& key_decodes(c.peer.key.key_view().1)
    &&& key_decodes(s.private_key@)
    &&& assigned_ips(c.peer.allowed_ips@, s.address@).len() > 0
}

/// The text that `wireguard_conf` writes for a client's configuration
/// (`Display` of `Interface`): the `[Interface]` section with the addresses
/// (single hosts without their prefix), the private key and the DNS
/// servers, then the AmneziaWG settings, then the `[Peer]` section with the
/// endpoint, the allowed IPs, the public key of the peer's key and the
/// keepalive.
pub uninterp spec fn client_conf_text(c: ClientConfView) -> Seq<char>;

/// A `[Peer]` as a `wireguard_conf::Peer`, one field for one, its key
/// parsed from base64 by `PrivateKey::try_from` or `PublicKey::try_from`,
/// whose error is returned.
#[verifier::external_body]
fn wg_peer(p: &ConfPeer) -> core::result::Result<Peer, WireguardError>
    requires
        forall|i: int| 0 <= i < p.allowed_ips@.len() ==> (#[trigger] p.allowed_ips@[i]).valid_prefix(),
{
    let mut b = Peer::builder();
    b.allowed_ips(p.allowed_ips.iter().map(|n| match n.addr {
        IpAddress::V4(x) => Ipv4Net::new_assert(x.into(), n.prefix).into(),
        IpAddress::V6(x) => Ipv6Net::new_assert(x.into(), n.prefix).into(),
    }).collect::<Vec<WgNet>>());
    match &p.key {
        PeerKey::Private(k) => b.private_key(PrivateKey::try_from(k.as_str())?),
        PeerKey::Public(k) => b.public_key(PublicKey::try_from(k.as_str())?),
    };
    let mut peer = b.build();
    peer.endpoint = p.endpoint.clone();
    peer.persistent_keepalive = p.persistent_keepalive;
    Ok(peer)
}

/// A `wireguard_conf::Peer` as plain values, one field for one, its key as
/// its `Display` text (the preshared key, which `to_interface` never sets,
/// is left out).
#[verifier::external_body]
fn conf_peer(p: &Peer) -> ConfPeer {
    ConfPeer {
        endpoint: p.endpoint.clone(),
        allowed_ips: p.allowed_ips.iter().map(|n| IpNet {
            addr: match n {
                WgNet::V4(v) => IpAddress::V4(v.addr().into()),
                WgNet::V6(v) => IpAddress::V6(v.addr().into()),
            },
            prefix: n.prefix_len(),
        }).collect(),
        key: match p.key.as_ref().left() {
            Some(k) => PeerKey::Private(k.to_string()),
            None => PeerKey::Public(p.key.as_ref().right().map_or(String::new(), |k| k.to_string())),
        },
        persistent_keepalive: p.persistent_keepalive,
    }
}

/// The server as the `wireguard_conf::Interface` that `to_interface` reads:
/// its addresses, listen port, private key (parsed by
/// `PrivateKey::try_from`, whose error is returned), DNS servers, endpoint
/// and AmneziaWG settings; its MTU and peers, which `to_interface` does not
/// read, are left out.
#[verifier::external_body]
fn wg_server_interface(s: &Server) -> core::result::Result<Interface, WireguardError>
    requires
        forall|i: int| 0 <= i < s.address@.len() ==> (#[trigger] s.address@[i]).valid_prefix(),
{
    let mut i = Interface::builder()
        .address(s.address.iter().map(|n| match n.addr {
            IpAddress::V4(x) => Ipv4Net::new_assert(x.into(), n.prefix).into(),
            IpAddress::V6(x) => Ipv6Net::new_assert(x.into(), n.prefix).into(),
        }).collect::<Vec<WgNet>>())
        .private_key(PrivateKey::try_from(s.private_key.as_str())?)
        .dns(s.dns.clone())
        .build();
    i.listen_port = s.listen_port;
    i.endpoint = s.endpoint.clone();
    i.amnezia_settings = s.amnezia.as_ref().map(wg_amnezia);
    Ok(i)
}

/// A client's `wireguard_conf::Interface` as plain values, one field for
/// one (its listen port, endpoint, table, MTU and hooks, which
/// `to_interface` leaves empty, are left out), its AmneziaWG settings
/// beside it, with the H ranges as text.
#[verifier::external_body]
fn client_conf_of(i: Interface) -> (ClientConf, Option<Amnezia<String>>) {
    (
    ClientConf {
        address: i.address.iter().map(|n| IpNet {
            addr: match n {
                WgNet::V4(v) => IpAddress::V4(v.addr().into()),
                WgNet::V6(v) => IpAddress::V6(v.addr().into()),
            },
            prefix: n.prefix_len(),
        }).collect(),
        private_key: i.private_key.to_string(),
        dns: i.dns.clone(),
        amnezia: None,
        peers: i.peers.iter().map(|p| conf_peer(p)).collect(),
    }, i.amnezia_settings.as_ref().map(amnezia_text))
}

/// `Peer::to_interface` of `wireguard_conf` on the client's peer `peer` and
/// the server `s`, with the options default gateway `dg`, keepalive `ka`
/// and server-only AmneziaWG settings stripped. As its source does: a key
/// that does not parse, a public key for the client (no private key
/// provided) or no allowed IP within a server subnet (no assigned IP) is an
/// error; otherwise the interface of `to_interface_view`, its AmneziaWG
/// settings (the server's, I1–I5 cleared by `strip_server_data`) beside
/// it, with the H ranges as the text their `Display` writes. The keys come
/// back as the text they were given in, which `Display` writes again for a
/// canonical key.
#[verifier::external_body]
fn to_client_interface(peer: &ConfPeer, s: &Server, dg: bool, ka: u16) -> (r:
    core::result::Result<(ClientConf, Option<Amnezia<String>>), WireguardError>)
    requires
        forall|i: int| 0 <= i < peer.allowed_ips@.len() ==> (#[trigger] peer.allowed_ips@[i]).valid_prefix(),
        forall|i: int| 0 <= i < s.address@.len() ==> (#[trigger] s.address@[i]).valid_prefix(),
    ensures
        !key_decodes(peer.key.key_view().1) || !key_decodes(s.private_key@) ==> r is Err,
        key_decodes(peer.key.key_view().1) && key_decodes(s.private_key@) ==> match peer.key {
            PeerKey::Public(_) => r is Err,
            PeerKey::Private(k) => if assigned_ips(peer.allowed_ips@, s.address@).len() == 0 {
                r is Err
            } else {
                r matches Ok((c, t)) && c@ == (ClientConfView {
                    amnezia: None,
                    ..to_interface_view(peer.allowed_ips@, k@, *s, dg, ka)
                }) && opt_amnezia_text_of(t, to_interface_view(peer.allowed_ips@, k@, *s, dg, ka).amnezia)
            },
        },
{
    let options = ToInterfaceOptions::new().default_gateway(dg).persistent_keepalive(ka).strip_server_data(true);
    let i = wg_peer(peer)?.to_interface(&wg_server_interface(s)?, options)?;
    Ok(client_conf_of(i))
}

/// A client's configuration as the `wireguard_conf::Interface` it stands
/// for, one field for one, its keys parsed by `PrivateKey::try_from` and
/// `PublicKey::try_from`, whose error is returned.
#[verifier::external_body]
fn wg_client_interface(c: &ClientConf) -> core::result::Result<Interface, WireguardError>
    requires
        forall|i: int| 0 <= i < c.address@.len() ==> (#[trigger] c.address@[i]).valid_prefix(),
        forall|j: int, i: int|
            0 <= j < c.peers@.len() && 0 <= i < c.peers@[j].allowed_ips@.len() ==> (
            #[trigger] c.peers@[j].allowed_ips@[i]).valid_prefix(),
{
    let mut i = Interface::builder()
        .address(c.address.iter().map(|n| match n.addr {
            IpAddress::V4(x) => Ipv4Net::new_assert(x.into(), n.prefix).into(),
            IpAddress::V6(x) => Ipv6Net::new_assert(x.into(), n.prefix).into(),
        }).collect::<Vec<WgNet>>())
        .private_key(PrivateKey::try_from(c.private_key.as_str())?)
        .dns(c.dns.clone())
        .peers(c.peers.iter().map(wg_peer).collect::<core::result::Result<Vec<_>, _>>()?)
        .build();
    i.amnezia_settings = c.amnezia.as_ref().map(wg_amnezia);
    Ok(i)
}

/// `Display` of the `wireguard_conf::Interface` that the configuration
/// stands for (its keys parsed by `PrivateKey::try_from` and
/// `PublicKey::try_from`), named `client_conf_text` of the configuration.
/// It fails exactly when a key does not parse.
#[verifier::external_body]
fn render_client_conf(c: &ClientConf) -> (r: core::result::Result<String, WireguardError>)
    requires
        forall|i: int| 0 <= i < c.address@.len() ==> (#[trigger] c.address@[i]).valid_prefix(),
        forall|j: int, i: int|
            0 <= j < c.peers@.len() && 0 <= i < c.peers@[j].allowed_ips@.len() ==> (
            #[trigger] c.peers@[j].allowed_ips@[i]).valid_prefix(),
    ensures
        r is Ok <==> key_decodes(c.private_key@) && forall|j: int|
            0 <= j < c.peers@.len() ==> key_decodes((#[trigger] c.peers@[j]).key.key_view().1),
        r matches Ok(t) ==> t@ == client_conf_text(c@),
{
    let i = wg_client_interface(c)?;
    Ok(i.to_string())
}

impl Client {
    /// The client's own configuration: an allowed IP outside the server's
    /// subnets is an error first; then `Peer::to_interface` makes it of the
    /// client's peer and its server with the client's options (default
    /// gateway, keepalive, server-only AmneziaWG settings left out), or
    /// fails with its own error; and the client's own DNS setting, if it has
    /// one, replaces the server's.
    pub fn into_interface(&self, server: &Server) -> (r: Result<ClientConf>)
        requires
            forall|i: int|
                0 <= i < self.peer.allowed_ips@.len() ==> (#[trigger] self.peer.allowed_ips@[i]).valid_prefix(),
            forall|i: int| 0 <= i < server.address@.len() ==> (#[trigger] server.address@[i]).valid_prefix(),
        ensures
            match first_false(subnet_flags(self.peer.allowed_ips@, server.address@)) {
                Some(i) => r == Err::<ClientConf, AwgctlError>(
                    AwgctlError::AddressOutsideSubnet(self.peer.allowed_ips@[i]),
                ),
                None => if export_made(*self, *server) {
                    r matches Ok(c) && c@ == client_conf_spec(*self, *server)
                } else {
                    r matches Err(AwgctlError::Wireguard(_))
                },
            },
    {
        match self.check_subnet(&server.address) {
            Err(e) => {
                return Err(e);
            },
            Ok(()) => {},
        }
        let peer = ConfPeer {
            endpoint: None,
            allowed_ips: copy_nets(&self.peer.allowed_ips),
            key: self.peer.key.copy(),
            persistent_keepalive: self.peer.persistent_keepalive,
        };
        match to_client_interface(&peer, server, self.default_gateway, self.peer.persistent_keepalive) {
            Err(e) => Err(AwgctlError::Wireguard(e)),
            Ok((c, t)) => {
                let ghost v = client_conf_spec(*self, *server);
                let mut c = c;
                match opt_amnezia_from_text(t) {
                    Some(a) => {
                        c.amnezia = a;
                    },
                    None => {
                        proof {
                            assert(false);
                        }
                        return Err(AwgctlError::ClientInvalid("AmneziaWG settings"));
                    },
                }
                if self.dns.is_some() {
                    c.dns = self.export_dns(&server.dns);
                }
                assert(c@ =~= v);
                Ok(c)
            },
        }
    }

    /// The text of this client's configuration (see `into_interface`),
    /// which is written whenever the configuration is made.
    pub fn config_text(&self, server: &Server) -> (r: Result<String>)
        requires
            forall|i: int|
                0 <= i < self.peer.allowed_ips@.len() ==> (#[trigger] self.peer.allowed_ips@[i]).valid_prefix(),
            forall|i: int| 0 <= i < server.address@.len() ==> (#[trigger] server.address@[i]).valid_prefix(),
        ensures
            match first_false(subnet_flags(self.peer.allowed_ips@, server.address@)) {
                Some(i) => r == Err::<String, AwgctlError>(
                    AwgctlError::AddressOutsideSubnet(self.peer.allowed_ips@[i]),
                ),
                None => if export_made(*self, *server) {
                    r matches Ok(t) && t@ == client_conf_text(client_conf_spec(*self, *server))
                } else {
                    r matches Err(AwgctlError::Wireguard(_))
                },
            },
    {
        let conf = self.into_interface(server)?;
        proof {
            lemma_assigned_valid(self.peer.allowed_ips@, server.address@);
            let v = client_conf_spec(*self, *server);
            assert(conf@ == v);
            assert(v.peers.len() == 1);
            assert(conf@.peers.len() == conf.peers@.len());
            assert(conf.peers@.len() == 1);
            assert forall|j: int, i: int|
                0 <= j < conf.peers@.len() && 0 <= i < conf.peers@[j].allowed_ips@.len() implies (
                #[trigger] conf.peers@[j].allowed_ips@[i]).valid_prefix() by {
                assert(j == 0);
                assert(conf.peers@[0]@ == conf@.peers[0]);
                if !self.default_gateway {
                    assert(conf.peers@[0].allowed_ips@ == server.address@);
                }
            }
            assert(conf.peers@[0]@ == conf@.peers[0]);
        }
        match render_client_conf(&conf) {
            Ok(t) => Ok(t),
            Err(e) => Err(AwgctlError::Wireguard(e)),
        }
    }
}

proof fn lemma_assigned_valid(allowed: Seq<IpNet>, server: Seq<IpNet>)
    ensures
        forall|i: int|
            0 <= i < assigned_ips(allowed, server).len() ==> (#[trigger] assigned_ips(
                allowed,
                server,
            )[i]).valid_prefix(),
    decreases allowed.len(),
{
    if allowed.len() > 0 {
        let rest = assigned_ips(allowed.drop_last(), server);
        lemma_assigned_valid(allowed.drop_last(), server);
        let all = assigned_ips(allowed, server);
        assert forall|i: int| 0 <= i < all.len() implies (#[trigger] all[i]).valid_prefix() by {
            if i < rest.len() {
                assert(rest[i].valid_prefix());
            }
        }
    }
}

} // verus!
