//! The arguments of the subcommands, as plain values.
use crate::net::IpNet;
use vstd::prelude::*;

verus! {

#[verifier::external_type_specification]
#[verifier::external_body]
pub struct ExPathBuf(std::path::PathBuf);

/// Arguments of `new`.
pub struct NewArgs {
    /// Interface name.
    pub name: Option<String>,
    /// Interface addresses.
    pub address: Vec<IpNet>,
    /// Listen port.
    pub listen_port: Option<u16>,
    /// Public endpoint.
    pub endpoint: Option<String>,
    /// DNS servers.
    pub dns: Vec<String>,
    /// Interface MTU.
    pub mtu: Option<usize>,
}

/// Arguments of `add`.
pub struct AddArgs {
    /// Server name.
    pub server: String,
    /// Client name.
    pub client: String,
    /// Client addresses.
    pub address: Vec<IpNet>,
    /// Use the VPN as the default gateway.
    pub default_gateway: bool,
    /// DNS servers.
    pub dns: Option<Vec<String>>,
    /// Don't inherit DNS from the server.
    pub no_dns: bool,
    /// Persistent keepalive.
    pub keepalive: Option<u16>,
}

/// Arguments of `rm`.
pub struct RmArgs {
    /// Server name.
    pub server: String,
    /// Client name. If provided, removes the client instead of the server.
    pub client: Option<String>,
}

/// Arguments of `export`.
pub struct ExportArgs {
    /// Server name.
    pub server: String,
    /// Client name.
    pub client: String,
    /// Output file path. With `qr`: the QR code as SVG; without: the config
    /// as text.
    pub output: Option<std::path::PathBuf>,
    /// Output a QR code instead of the text config.
    pub qr: bool,
}

/// Where and how `export` writes a client's configuration.
#[derive(Debug, Clone, Copy, PartialEq, Eq, Structural)]
pub enum ExportTarget {
    /// A QR code as SVG, to the output file.
    SvgFile,
    /// A QR code drawn in the terminal.
    TerminalQr,
    /// The config text, to the output file.
    TextFile,
    /// The config text, to standard output.
    Stdout,
}

impl ExportArgs {
    /// The four modes of `export`, by whether an output file is given and
    /// whether a QR code is asked for.
    pub fn target(&self) -> (r: ExportTarget)
        ensures
            r == match (self.output is Some, self.qr) {
                (true, true) => ExportTarget::SvgFile,
                (false, true) => ExportTarget::TerminalQr,
                (true, false) => ExportTarget::TextFile,
                (false, false) => ExportTarget::Stdout,
            },
    {
        match (&self.output, self.qr) {
            (Some(_), true) => ExportTarget::SvgFile,
            (None, true) => ExportTarget::TerminalQr,
            (Some(_), false) => ExportTarget::TextFile,
            (None, false) => ExportTarget::Stdout,
        }
    }
}

/// Arguments of `list`.
pub struct ListArgs {
    /// Server name. If given, lists the clients of this server.
    pub server: Option<String>,
    /// Show extended output.
    pub verbose: bool,
}

} // verus!
