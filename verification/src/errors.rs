//! The errors that managing servers and clients can end in.
use crate::net::IpNet;
use vstd::prelude::*;

verus! {

/// What can go wrong while managing AmneziaWG servers and clients.
#[derive(Debug, PartialEq)]
pub enum AwgctlError {
    /// The name is empty or holds a character other than an ASCII letter or
    /// digit, `-` or `_`.
    InvalidName(String),
    /// The name is taken.
    NameAlreadyExists(String),
    /// A DNS entry is neither an IP address nor a host name.
    InvalidDnsEntry(String),
    /// A stored server lacks something it needs.
    ServerInvalid(&'static str),
    /// Every `10.0.X.0/24` subnet is taken.
    NoAvailableSubnet,
    /// The subnet overlaps that of another configured server.
    SubnetConfigured(IpNet),
    /// The subnet overlaps an address of the system.
    SubnetInUse(IpNet),
    /// Every port of the automatic range is taken.
    NoAvailablePort,
    /// The port is that of another configured server.
    PortAlreadyConfigured(u16),
    /// The system does not let the port be bound.
    PortInUse(u16),
    /// The public endpoint could not be found out.
    EndpointResolutionFailed,
    /// The endpoint given is empty.
    EmptyEndpoint,
    /// No server of that name.
    ServerNotFound(String),
    /// A stored client lacks something it needs.
    ClientInvalid(&'static str),
    /// Every host address of the server's subnet is taken.
    NoAvailableAddress(IpNet),
    /// The address is taken.
    AddressAlreadyExists(IpNet),
    /// The address lies outside every subnet of the server.
    AddressOutsideSubnet(IpNet),
    /// No client of that name.
    ClientNotFound(String),
    /// `wireguard_conf` could not make the client's configuration.
    Wireguard(wireguard_conf::WireguardError),
    /// The configuration does not fit in a QR code.
    Qr(qrcode::types::QrError),
}

#[verifier::external_type_specification]
#[verifier::external_body]
pub struct ExWireguardError(wireguard_conf::WireguardError);

#[verifier::external_type_specification]
#[verifier::external_body]
pub struct ExQrError(qrcode::types::QrError);

/// `Result` with the library's error.
pub type Result<T> = core::result::Result<T, AwgctlError>;

} // verus!
