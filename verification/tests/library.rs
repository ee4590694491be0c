use awgctl::client::Client;
use awgctl::commands::{AddArgs, ExportArgs, ExportTarget, NewArgs};
use awgctl::errors::AwgctlError;
use awgctl::export::qr_image;
use awgctl::amnezia::{amnezia_model, Amnezia, AmneziaV2, HSpan};
use awgctl::ip_text::{fmt_ip, fmt_net, parse_ip_addr};
use awgctl::net::{IpAddress, IpNet};
use awgctl::new_server::{NewServerAction, NewServerEvent, NewServerStep};
use awgctl::server::{PeerConfig, PeerKey, PortAction, Server, parse_awg_index};
use awgctl::store::{ConfFile, conf_file};
use awgctl::util::{
    InterfaceAddr, Listable, client_validate_ip, format_details, format_table, get_system_addrs,
    is_valid_dns_entry, server_validate_ip, server_validate_port, validate_dns, validate_name,
};

fn net(s: &str) -> IpNet {
    let (a, p) = s.split_once('/').expect("a network has a prefix");
    let addr = parse_ip_addr(a).expect("a valid address");
    IpNet::new(addr, p.parse().expect("a valid prefix")).expect("a valid network")
}

fn strings(v: &[&str]) -> Vec<String> {
    v.iter().map(|s| s.to_string()).collect()
}

fn server(name: &str, address: &[&str], port: u16, dns: &[&str], created_at: i128) -> Server {
    Server {
        name: name.to_string(),
        created_at,
        address: address.iter().map(|a| net(a)).collect(),
        listen_port: Some(port),
        endpoint: Some("vpn.example.com".to_string()),
        dns: strings(dns),
        mtu: None,
        private_key: SERVER_KEY.to_string(),
        amnezia: None,
        peers: Vec::new(),
    }
}

const SERVER_KEY: &str = "sJkP2oorqrq49P6Ln25MWo3X04PxhB8k+RnJJnZ4gEo=";

fn client(name: &str, ips: &[&str], dns: Option<&[&str]>, gateway: bool, keepalive: u16) -> Client {
    Client {
        name: name.to_string(),
        server: "awg0".to_string(),
        created_at: 0,
        dns: dns.map(strings),
        default_gateway: gateway,
        peer: PeerConfig {
            allowed_ips: ips.iter().map(|a| net(a)).collect(),
            persistent_keepalive: keepalive,
            key: PeerKey::Private(format!("key-of-{name}")),
        },
    }
}

fn add_args(client: &str, address: &[&str]) -> AddArgs {
    AddArgs {
        server: "awg0".to_string(),
        client: client.to_string(),
        address: address.iter().map(|a| net(a)).collect(),
        default_gateway: false,
        dns: None,
        no_dns: false,
        keepalive: None,
    }
}

// ---------------------------------------------------------------------------
// Addresses
// ---------------------------------------------------------------------------

#[test]
fn parses_and_formats_ipv4() {
    assert_eq!(parse_ip_addr("10.0.0.1"), Some(IpAddress::V4(0x0a00_0001)));
    assert_eq!(parse_ip_addr("255.255.255.255"), Some(IpAddress::V4(0xffff_ffff)));
    assert_eq!(parse_ip_addr("256.0.0.1"), None);
    assert_eq!(parse_ip_addr("01.2.3.4"), None);
    assert_eq!(parse_ip_addr("1.2.3"), None);
    assert_eq!(fmt_ip(&IpAddress::V4(0xc0a8_0101)), "192.168.1.1");
    assert_eq!(fmt_net(&net("10.0.3.1/24")), "10.0.3.1/24");
}

#[test]
fn parses_and_formats_ipv6() {
    assert_eq!(parse_ip_addr("::1"), Some(IpAddress::V6(1)));
    assert_eq!(parse_ip_addr("fd00::1"), Some(IpAddress::V6(0xfd00_u128 << 112 | 1)));
    assert_eq!(parse_ip_addr("::ffff:1.2.3.4"), Some(IpAddress::V6(0xffff_0102_0304)));
    assert_eq!(parse_ip_addr("1::2::3"), None);
    assert_eq!(fmt_ip(&IpAddress::V6(1)), "::1");
    assert_eq!(fmt_ip(&IpAddress::V6(0)), "::");
    assert_eq!(fmt_ip(&IpAddress::V6(0xfd00_u128 << 112 | 1)), "fd00::1");
    assert_eq!(fmt_ip(&IpAddress::V6(0xffff_0102_0304)), "::ffff:1.2.3.4");
    assert_eq!(fmt_ip(&IpAddress::V6((1_u128 << 112) | (1_u128 << 64) | 1)), "1:0:0:1::1");
    assert_eq!(fmt_net(&net("fd00::1/64")), "fd00::1/64");
}

#[test]
fn network_prefix_must_fit_family() {
    assert!(IpNet::new(IpAddress::V4(1), 33).is_none());
    assert!(IpNet::new(IpAddress::V6(1), 128).is_some());
    assert!(net("10.0.0.0/8").contains(&net("10.1.2.3/24")));
    assert!(!net("10.1.2.3/24").contains(&net("10.0.0.0/8")));
    assert!(net("10.0.0.1/24").contains(&net("10.0.0.1/24")));
    assert!(!net("10.0.0.0/8").contains(&net("fd00::1/128")));
}

// ---------------------------------------------------------------------------
// Names and DNS
// ---------------------------------------------------------------------------

#[test]
fn dns_entries() {
    assert!(is_valid_dns_entry("1.1.1.1"));
    assert!(is_valid_dns_entry("2606:4700::1111"));
    assert!(is_valid_dns_entry("dns.google"));
    assert!(is_valid_dns_entry("a-b.example"));
    assert!(!is_valid_dns_entry(""));
    assert!(!is_valid_dns_entry("-bad.example"));
    assert!(!is_valid_dns_entry("bad-.example"));
    assert!(!is_valid_dns_entry("a..b"));
    assert!(!is_valid_dns_entry("under_score.example"));
    assert!(!is_valid_dns_entry("trailing.dot."));
}

#[test]
fn validate_dns_reports_first_bad_entry() {
    let ok = strings(&["1.1.1.1", "dns.google"]);
    assert_eq!(validate_dns(ok.clone()), Ok(ok));
    assert_eq!(
        validate_dns(strings(&["1.1.1.1", "bad entry", "-x"])),
        Err(AwgctlError::InvalidDnsEntry("bad entry".to_string()))
    );
    assert_eq!(validate_dns(Vec::new()), Ok(Vec::new()));
}

#[test]
fn validate_name_cases() {
    let existing = strings(&["awg0", "office"]);
    assert_eq!(
        validate_name(String::new(), &existing),
        Err(AwgctlError::InvalidName(String::new()))
    );
    assert_eq!(
        validate_name("bad name".to_string(), &existing),
        Err(AwgctlError::InvalidName("bad name".to_string()))
    );
    assert_eq!(
        validate_name("é".to_string(), &existing),
        Err(AwgctlError::InvalidName("é".to_string()))
    );
    assert_eq!(
        validate_name("office".to_string(), &existing),
        Err(AwgctlError::NameAlreadyExists("office".to_string()))
    );
    assert_eq!(validate_name("home-1_b".to_string(), &existing), Ok("home-1_b".to_string()));
}

#[test]
fn auto_server_names() {
    assert_eq!(Server::resolve_name(None, &Vec::new()), Ok("awg0".to_string()));
    assert_eq!(
        Server::resolve_name(None, &strings(&["awg0", "awg3", "office", "awgx"])),
        Ok("awg4".to_string())
    );
    assert_eq!(Server::resolve_name(None, &strings(&["awg+5"])), Ok("awg6".to_string()));
    assert_eq!(Server::resolve_name(None, &strings(&["awg007"])), Ok("awg8".to_string()));
    assert_eq!(
        Server::resolve_name(Some("awg0".to_string()), &strings(&["awg0"])),
        Err(AwgctlError::NameAlreadyExists("awg0".to_string()))
    );
    assert_eq!(parse_awg_index("awg12"), Some(12));
    assert_eq!(parse_awg_index("awg"), None);
    assert_eq!(parse_awg_index("awg4294967296"), None);
    assert_eq!(parse_awg_index("wg1"), None);
}

// ---------------------------------------------------------------------------
// Subnets, ports, endpoints
// ---------------------------------------------------------------------------

#[test]
fn server_subnet_is_first_free_slash24() {
    let existing = vec![net("10.0.0.1/24")];
    let sys = vec![net("10.0.1.5/24"), net("192.168.1.10/24")];
    assert_eq!(
        Server::resolve_ip(Vec::new(), &existing, &sys),
        Ok(vec![net("10.0.2.1/24")])
    );
    assert_eq!(Server::resolve_ip(Vec::new(), &Vec::new(), &Vec::new()), Ok(vec![net("10.0.0.1/24")]));
    let wide = vec![net("10.0.0.0/16")];
    assert_eq!(
        Server::resolve_ip(Vec::new(), &Vec::new(), &wide),
        Err(AwgctlError::NoAvailableSubnet)
    );
}

#[test]
fn server_subnet_checks() {
    let existing = vec![net("10.0.0.1/24")];
    let sys = vec![net("192.168.1.10/24")];
    assert_eq!(
        server_validate_ip(vec![net("10.0.0.0/16")], &existing, &sys),
        Err(AwgctlError::SubnetConfigured(net("10.0.0.1/24")))
    );
    assert_eq!(
        server_validate_ip(vec![net("192.168.1.1/32")], &existing, &sys),
        Err(AwgctlError::SubnetInUse(net("192.168.1.10/24")))
    );
    let ok = vec![net("172.16.0.1/24"), net("fd00::1/64")];
    assert_eq!(server_validate_ip(ok.clone(), &existing, &sys), Ok(ok.clone()));
    assert_eq!(Server::resolve_ip(ok.clone(), &existing, &sys), Ok(ok));
}

#[test]
fn port_choice_steps() {
    let existing = vec![51820, 51822];
    assert_eq!(Server::resolve_port(None, &existing, None), PortAction::Probe(51821));
    assert_eq!(
        Server::resolve_port(None, &existing, Some((51821, false))),
        PortAction::Probe(51823)
    );
    assert_eq!(
        Server::resolve_port(None, &existing, Some((51823, true))),
        PortAction::Accept(51823)
    );
    assert_eq!(
        Server::resolve_port(None, &existing, Some((51900, false))),
        PortAction::Reject(AwgctlError::NoAvailablePort)
    );
    assert_eq!(
        Server::resolve_port(Some(51820), &existing, None),
        PortAction::Reject(AwgctlError::PortAlreadyConfigured(51820))
    );
    assert_eq!(Server::resolve_port(Some(443), &existing, None), PortAction::Probe(443));
    assert_eq!(
        Server::resolve_port(Some(443), &existing, Some((443, true))),
        PortAction::Accept(443)
    );
    assert_eq!(
        Server::resolve_port(Some(443), &existing, Some((443, false))),
        PortAction::Reject(AwgctlError::PortInUse(443))
    );
    let full: Vec<u16> = (51820..=51900).collect();
    assert_eq!(
        Server::resolve_port(None, &full, None),
        PortAction::Reject(AwgctlError::NoAvailablePort)
    );
}

#[test]
fn validate_port_cases() {
    let existing = vec![51820];
    assert_eq!(server_validate_port(51821, &existing, true), Ok(51821));
    assert_eq!(
        server_validate_port(51820, &existing, true),
        Err(AwgctlError::PortAlreadyConfigured(51820))
    );
    assert_eq!(server_validate_port(51821, &existing, false), Err(AwgctlError::PortInUse(51821)));
}

#[test]
fn endpoint_from_checkip_reply() {
    let sys = vec![net("203.0.113.5/24"), net("10.0.0.1/24")];
    let reply = "HTTP/1.1 200 OK\r\nContent-Type: text/plain\r\n\r\n203.0.113.5\n";
    assert_eq!(Server::endpoint_from_response(reply, &sys), Ok("203.0.113.5".to_string()));
    let elsewhere = "HTTP/1.1 200 OK\r\n\r\n198.51.100.7\n";
    assert_eq!(
        Server::endpoint_from_response(elsewhere, &sys),
        Err(AwgctlError::EndpointResolutionFailed)
    );
    assert_eq!(
        Server::endpoint_from_response("HTTP/1.1 200 OK\r\n\r\n   \n", &sys),
        Err(AwgctlError::EndpointResolutionFailed)
    );
    assert_eq!(
        Server::endpoint_from_response("no blank line here", &sys),
        Err(AwgctlError::EndpointResolutionFailed)
    );
    assert_eq!(
        Server::endpoint_from_response("HTTP/1.1 200 OK\r\n\r\nnot-an-ip", &sys),
        Err(AwgctlError::EndpointResolutionFailed)
    );
}

#[test]
fn endpoint_asked_for() {
    assert_eq!(Server::resolve_endpoint("vpn.example.com".to_string()), Ok("vpn.example.com".to_string()));
    assert_eq!(Server::resolve_endpoint(" \t".to_string()), Err(AwgctlError::EmptyEndpoint));
    assert_eq!(Server::resolve_endpoint(String::new()), Err(AwgctlError::EmptyEndpoint));
}

#[test]
fn system_addresses_with_ipv4_netmask() {
    let addrs = vec![
        InterfaceAddr { ip: IpAddress::V4(0x7f00_0001), netmask: Some(IpAddress::V4(0xff00_0000)) },
        InterfaceAddr { ip: IpAddress::V4(0xc0a8_010a), netmask: Some(IpAddress::V4(0xffff_ff00)) },
        InterfaceAddr { ip: IpAddress::V6(1), netmask: Some(IpAddress::V6(u128::MAX)) },
        InterfaceAddr { ip: IpAddress::V4(0x0a00_0001), netmask: None },
    ];
    assert_eq!(get_system_addrs(&addrs), vec![net("127.0.0.1/8"), net("192.168.1.10/24")]);
}

// ---------------------------------------------------------------------------
// Making a server
// ---------------------------------------------------------------------------

fn new_args(endpoint: Option<&str>) -> NewArgs {
    NewArgs {
        name: None,
        address: Vec::new(),
        listen_port: None,
        endpoint: endpoint.map(|e| e.to_string()),
        dns: strings(&["1.1.1.1"]),
        mtu: Some(1420),
    }
}

#[test]
fn new_server_runs_through_its_steps() {
    let servers = vec![server("awg0", &["10.0.0.1/24"], 51820, &[], 1)];
    let names = strings(&["awg0", "awg1"]);
    let s = match Server::new_with(new_args(Some("vpn.example.com")), &servers, &names, 42, SERVER_KEY.to_string(), None) {
        NewServerStep::Next(s, NewServerAction::ReadSystemAddrs) => s,
        _ => panic!("the system's addresses come first"),
    };
    assert_eq!(s.name, "awg2");
    let sys = vec![net("10.0.1.7/24"), net("192.168.1.10/24")];
    let s = match s.advance(NewServerEvent::SystemAddrs(sys)) {
        NewServerStep::Next(s, NewServerAction::Probe(51821)) => s,
        _ => panic!("the first free port is probed"),
    };
    assert_eq!(s.address, vec![net("10.0.2.1/24")]);
    let s = match s.advance(NewServerEvent::Probed(false)) {
        NewServerStep::Next(s, NewServerAction::Probe(51822)) => s,
        _ => panic!("a port that does not bind is skipped"),
    };
    match s.advance(NewServerEvent::Probed(true)) {
        NewServerStep::Done(made) => {
            assert_eq!(made.name, "awg2");
            assert_eq!(made.created_at, 42);
            assert_eq!(made.address, vec![net("10.0.2.1/24")]);
            assert_eq!(made.listen_port, Some(51822));
            assert_eq!(made.endpoint.as_deref(), Some("vpn.example.com"));
            assert_eq!(made.dns, strings(&["1.1.1.1"]));
            assert_eq!(made.mtu, Some(1420));
            assert_eq!(made.private_key, SERVER_KEY);
            assert!(made.amnezia.is_none());
            assert!(made.peers.is_empty());
            assert_eq!(made.validate(), Ok(()));
        }
        _ => panic!("the server is made"),
    }
}

#[test]
fn new_server_asks_checkip_without_endpoint() {
    let s = match Server::new_with(new_args(None), &Vec::new(), &Vec::new(), 7, SERVER_KEY.to_string(), None) {
        NewServerStep::Next(s, NewServerAction::ReadSystemAddrs) => s,
        _ => panic!("the system's addresses come first"),
    };
    let sys = vec![net("203.0.113.5/24")];
    let s = match s.advance(NewServerEvent::SystemAddrs(sys)) {
        NewServerStep::Next(s, NewServerAction::Probe(51820)) => s,
        _ => panic!("the first port of the range is probed"),
    };
    let s = match s.advance(NewServerEvent::Probed(true)) {
        NewServerStep::Next(s, NewServerAction::FetchPublicAddress) => s,
        _ => panic!("the public address is asked for"),
    };
    match s.advance(NewServerEvent::Reply("HTTP/1.1 200 OK\r\n\r\n203.0.113.5\n".to_string())) {
        NewServerStep::Done(made) => {
            assert_eq!(made.name, "awg0");
            assert_eq!(made.endpoint.as_deref(), Some("203.0.113.5"));
            assert_eq!(made.address, vec![net("10.0.0.1/24")]);
        }
        _ => panic!("the server is made"),
    }
}

#[test]
fn new_server_failures() {
    let mut args = new_args(Some("vpn.example.com"));
    args.name = Some("bad name".to_string());
    match Server::new_with(args, &Vec::new(), &Vec::new(), 0, SERVER_KEY.to_string(), None) {
        NewServerStep::Failed(e) => assert_eq!(e, AwgctlError::InvalidName("bad name".to_string())),
        _ => panic!("an invalid name is refused"),
    }

    let mut args = new_args(Some("  "));
    args.listen_port = Some(443);
    let s = match Server::new_with(args, &Vec::new(), &Vec::new(), 0, SERVER_KEY.to_string(), None) {
        NewServerStep::Next(s, _) => s,
        _ => panic!("the name is free"),
    };
    let s = match s.advance(NewServerEvent::SystemAddrs(Vec::new())) {
        NewServerStep::Next(s, NewServerAction::Probe(443)) => s,
        _ => panic!("the port asked for is probed"),
    };
    match s.advance(NewServerEvent::Probed(true)) {
        NewServerStep::Failed(e) => assert_eq!(e, AwgctlError::EmptyEndpoint),
        _ => panic!("a blank endpoint is refused"),
    }

    let mut args = new_args(Some("vpn.example.com"));
    args.dns = strings(&["1.1.1.1", "not valid"]);
    args.listen_port = Some(443);
    let s = match Server::new_with(args, &Vec::new(), &Vec::new(), 0, SERVER_KEY.to_string(), None) {
        NewServerStep::Next(s, _) => s,
        _ => panic!("the name is free"),
    };
    let s = match s.advance(NewServerEvent::SystemAddrs(Vec::new())) {
        NewServerStep::Next(s, _) => s,
        _ => panic!("the port asked for is probed"),
    };
    match s.advance(NewServerEvent::Probed(true)) {
        NewServerStep::Failed(e) => {
            assert_eq!(e, AwgctlError::InvalidDnsEntry("not valid".to_string()))
        }
        _ => panic!("invalid DNS is refused last"),
    }

    let servers = vec![server("awg0", &["10.0.0.1/24"], 443, &[], 1)];
    let mut args = new_args(Some("vpn.example.com"));
    args.listen_port = Some(443);
    let s = match Server::new_with(args, &servers, &strings(&["awg0"]), 0, SERVER_KEY.to_string(), None) {
        NewServerStep::Next(s, _) => s,
        _ => panic!("the name is free"),
    };
    match s.advance(NewServerEvent::SystemAddrs(Vec::new())) {
        NewServerStep::Failed(e) => assert_eq!(e, AwgctlError::PortAlreadyConfigured(443)),
        _ => panic!("another server's port is refused"),
    }
}

#[test]
fn new_server_with_clock() {
    match Server::new(new_args(Some("vpn.example.com")), &Vec::new(), &strings(&["awg9"])) {
        NewServerStep::Next(s, NewServerAction::ReadSystemAddrs) => {
            assert_eq!(s.name, "awg10");
            assert!(s.created_at > 0);
            assert_eq!(s.private_key.len(), 44);
            assert!(s.amnezia.is_some());
        }
        _ => panic!("the name is free"),
    }
}

// ---------------------------------------------------------------------------
// Stored servers and clients
// ---------------------------------------------------------------------------

#[test]
fn stored_server_checks() {
    let good = server("awg0", &["10.0.0.1/24"], 51820, &["1.1.1.1"], 0);
    assert_eq!(good.validate(), Ok(()));
    let mut s = server("awg0", &[], 51820, &[], 0);
    assert_eq!(s.validate(), Err(AwgctlError::ServerInvalid("no addresses")));
    s.address = vec![net("10.0.0.1/24")];
    s.listen_port = None;
    assert_eq!(s.validate(), Err(AwgctlError::ServerInvalid("no listen port")));
    s.listen_port = Some(1);
    s.endpoint = None;
    assert_eq!(s.validate(), Err(AwgctlError::ServerInvalid("no endpoint")));
    s.endpoint = Some(" ".to_string());
    assert_eq!(s.validate(), Err(AwgctlError::ServerInvalid("empty endpoint")));
    s.endpoint = Some("x".to_string());
    s.dns = strings(&["ok.example", "no good"]);
    assert_eq!(s.validate(), Err(AwgctlError::InvalidDnsEntry("no good".to_string())));
}

#[test]
fn stored_client_checks() {
    assert_eq!(client("alice", &["10.0.0.2/24"], None, false, 0).validate(), Ok(()));
    assert_eq!(
        client("alice", &[], None, false, 0).validate(),
        Err(AwgctlError::ClientInvalid("no allowed ips"))
    );
    assert_eq!(
        client("alice", &["10.0.0.2/24"], Some(&["bad dns"]), false, 0).validate(),
        Err(AwgctlError::InvalidDnsEntry("bad dns".to_string()))
    );
}

#[test]
fn configuration_files() {
    assert_eq!(conf_file("awg0.toml"), Some(ConfFile::Toml("awg0".to_string())));
    assert_eq!(conf_file("awg1.conf"), Some(ConfFile::Conf("awg1".to_string())));
    assert_eq!(conf_file("a.b.conf"), Some(ConfFile::Conf("a.b".to_string())));
    assert_eq!(conf_file(".toml"), None);
    assert_eq!(conf_file("toml"), None);
    assert_eq!(conf_file("notes.txt"), None);
    assert_eq!(conf_file("awg0.toml.bak"), None);
    assert_eq!(conf_file("x.toml"), Some(ConfFile::Toml("x".to_string())));
}

#[test]
fn listings_sort_by_creation_keeping_ties() {
    let servers = vec![
        server("c", &["10.0.2.1/24"], 3, &[], 30),
        server("a", &["10.0.0.1/24"], 1, &[], 10),
        server("b1", &["10.0.1.1/24"], 2, &[], 20),
        server("b2", &["10.0.3.1/24"], 4, &[], 20),
    ];
    let names: Vec<String> = Server::list(servers).into_iter().map(|s| s.name).collect();
    assert_eq!(names, strings(&["a", "b1", "b2", "c"]));
    let mut later = client("later", &["10.0.0.3/24"], None, false, 0);
    later.created_at = 5;
    let earlier = client("earlier", &["10.0.0.2/24"], None, false, 0);
    let names: Vec<String> = Client::list(vec![later, earlier]).into_iter().map(|c| c.name).collect();
    assert_eq!(names, strings(&["earlier", "later"]));
}

#[test]
fn server_table() {
    let servers = vec![
        server("awg0", &["10.0.0.1/24"], 51820, &[], 0),
        server("office", &["10.0.1.1/24", "fd00::1/64"], 51821, &["1.1.1.1", "8.8.8.8"], 1),
    ];
    assert_eq!(
        format_table(&servers, false, "No servers"),
        "Name    Address                  Port   DNS               \n\
         awg0    10.0.0.1/24              51820  —                 \n\
         office  10.0.1.1/24, fd00::1/64  51821  1.1.1.1, 8.8.8.8  \n"
    );
    assert_eq!(format_table(&Vec::<Server>::new(), true, "No servers"), "No servers\n");
    assert_eq!(Server::headers(true), vec!["Name", "Address", "Port", "Endpoint", "DNS", "MTU"]);
}

#[test]
fn client_table() {
    let clients = vec![
        client("alice", &["10.0.0.2/24"], None, false, 0),
        client("bob", &["10.0.0.3/24"], Some(&[]), true, 25),
    ];
    assert_eq!(
        format_table(&clients, true, "No clients"),
        "Name   Address      DNS      Gateway  Keepalive  \n\
         alice  10.0.0.2/24  Inherit  No       No         \n\
         bob    10.0.0.3/24  —        Yes      25         \n"
    );
    let carol = client("carol", &["10.0.0.4/24"], Some(&["1.1.1.1", "9.9.9.9"]), false, 0);
    assert_eq!(carol.row(false), strings(&["carol", "10.0.0.4/24", "1.1.1.1, 9.9.9.9", "No"]));
}

#[test]
fn server_details() {
    let mut s = server("awg0", &["10.0.0.1/24"], 51820, &[], 0);
    s.mtu = Some(1420);
    assert_eq!(
        format_details(&s),
        "Name      awg0\nAddress   10.0.0.1/24\nPort      51820\nEndpoint  vpn.example.com\nDNS       —\nMTU       1420\n\n"
    );
    s.mtu = None;
    assert_eq!(s.row(true)[5], "—");
}

// ---------------------------------------------------------------------------
// Clients
// ---------------------------------------------------------------------------

#[test]
fn client_addresses() {
    let server_ips = vec![net("10.0.0.1/24")];
    let existing = vec![net("10.0.0.2/24")];
    assert_eq!(
        Client::resolve_ip(Vec::new(), &existing, &server_ips),
        Ok(vec![net("10.0.0.3/32")])
    );
    assert_eq!(
        Client::resolve_ip(vec![net("10.0.0.2/32")], &existing, &server_ips),
        Err(AwgctlError::AddressAlreadyExists(net("10.0.0.2/32")))
    );
    assert_eq!(
        Client::resolve_ip(vec![net("10.0.0.1/32")], &existing, &server_ips),
        Err(AwgctlError::AddressAlreadyExists(net("10.0.0.1/32")))
    );
    assert_eq!(
        Client::resolve_ip(vec![net("10.9.0.5/32")], &existing, &server_ips),
        Err(AwgctlError::AddressOutsideSubnet(net("10.9.0.5/32")))
    );
    assert_eq!(
        Client::resolve_ip(vec![net("10.0.0.9/32")], &existing, &server_ips),
        Ok(vec![net("10.0.0.9/32")])
    );
    let tiny = vec![net("10.0.0.1/30")];
    let taken = vec![net("10.0.0.2/30")];
    assert_eq!(
        Client::resolve_ip(Vec::new(), &taken, &tiny),
        Err(AwgctlError::NoAvailableAddress(net("10.0.0.1/30")))
    );
    let v6 = vec![net("fd00::1/64")];
    assert_eq!(Client::resolve_ip(Vec::new(), &Vec::new(), &v6), Ok(vec![net("fd00::/128")]));
}

#[test]
fn validate_client_ip_cases() {
    let used = vec![IpAddress::V4(0x0a00_0001)];
    let server_ips = vec![net("10.0.0.1/24")];
    assert_eq!(
        client_validate_ip(vec![net("10.0.0.1/32")], &used, &server_ips),
        Err(AwgctlError::AddressAlreadyExists(net("10.0.0.1/32")))
    );
    assert_eq!(
        client_validate_ip(vec![net("10.0.0.5/16")], &used, &server_ips),
        Err(AwgctlError::AddressOutsideSubnet(net("10.0.0.5/16")))
    );
}

#[test]
fn new_client_joins_server() {
    let mut s = server("awg0", &["10.0.0.1/24"], 51820, &["1.1.1.1"], 0);
    let existing = vec![client("alice", &["10.0.0.2/24"], None, false, 0)];
    let mut args = add_args("bob", &[]);
    args.keepalive = Some(25);
    args.dns = Some(strings(&["9.9.9.9"]));
    let made = Client::new_with(args, &existing, &mut s, PeerKey::Private("k".to_string()), 99)
        .expect("the client is made");
    assert_eq!(made.name, "bob");
    assert_eq!(made.server, "awg0");
    assert_eq!(made.created_at, 99);
    assert_eq!(made.dns, Some(strings(&["9.9.9.9"])));
    assert_eq!(made.peer.allowed_ips, vec![net("10.0.0.3/32")]);
    assert_eq!(made.peer.persistent_keepalive, 25);
    assert_eq!(s.peers.len(), 1);
    assert_eq!(s.peers[0], made.peer);
}

#[test]
fn new_client_failures_leave_server_alone() {
    let mut s = server("awg0", &["10.0.0.1/24"], 51820, &[], 0);
    let existing = vec![client("alice", &["10.0.0.2/24"], None, false, 0)];
    let r = Client::new_with(add_args("alice", &[]), &existing, &mut s, PeerKey::Private("k".into()), 0);
    assert!(matches!(r, Err(AwgctlError::NameAlreadyExists(ref n)) if n == "alice"));
    let mut args = add_args("bob", &[]);
    args.dns = Some(strings(&["no good"]));
    let r = Client::new_with(args, &existing, &mut s, PeerKey::Private("k".into()), 0);
    assert!(matches!(r, Err(AwgctlError::InvalidDnsEntry(ref d)) if d == "no good"));
    let r = Client::new_with(add_args("bob", &["10.0.0.2/32"]), &existing, &mut s, PeerKey::Private("k".into()), 0);
    assert!(matches!(r, Err(AwgctlError::AddressAlreadyExists(_))));
    assert!(s.peers.is_empty());
}

#[test]
fn new_client_no_dns_overrides() {
    let mut s = server("awg0", &["10.0.0.1/24"], 51820, &["1.1.1.1"], 0);
    let mut args = add_args("bob", &[]);
    args.no_dns = true;
    args.dns = Some(strings(&["no good"]));
    let made = Client::new(args, &Vec::new(), &mut s).expect("the client is made");
    assert_eq!(made.dns, Some(Vec::new()));
    assert!(matches!(made.peer.key, PeerKey::Private(ref k) if k.len() == 44));
    assert!(made.created_at > 0);
    assert_eq!(made.export_dns(&s.dns), Vec::<String>::new());
}

#[test]
fn export_dns_follows_client_setting() {
    let server_dns = strings(&["1.1.1.1"]);
    assert_eq!(client("a", &["10.0.0.2/24"], None, false, 0).export_dns(&server_dns), server_dns);
    assert_eq!(
        client("a", &["10.0.0.2/24"], Some(&["9.9.9.9"]), false, 0).export_dns(&server_dns),
        strings(&["9.9.9.9"])
    );
}

#[test]
fn export_checks_subnet() {
    let c = client("a", &["10.0.0.2/24", "10.5.0.2/24"], None, false, 0);
    assert_eq!(
        c.check_subnet(&vec![net("10.0.0.1/24")]),
        Err(AwgctlError::AddressOutsideSubnet(net("10.5.0.2/24")))
    );
    assert_eq!(c.check_subnet(&vec![net("10.0.0.1/8")]), Ok(()));
}

#[test]
fn removing_a_client_drops_its_peer() {
    let mut s = server("awg0", &["10.0.0.1/24"], 51820, &[], 0);
    let alice = client("alice", &["10.0.0.2/24"], None, false, 0);
    let bob = client("bob", &["10.0.0.3/24"], None, false, 0);
    s.peers = vec![alice.peer.copy(), bob.peer.copy(), alice.peer.copy()];
    alice.remove_from(&mut s);
    assert_eq!(s.peers, vec![bob.peer.copy()]);
    s.remove_peer(&PeerKey::Public("key-of-bob".to_string()));
    assert_eq!(s.peers.len(), 1);
    s.remove_peer(&PeerKey::Private("key-of-bob".to_string()));
    assert!(s.peers.is_empty());
}

// ---------------------------------------------------------------------------
// Export
// ---------------------------------------------------------------------------

#[test]
fn export_targets() {
    let mut a = ExportArgs { server: "awg0".into(), client: "a".into(), output: None, qr: false };
    assert_eq!(a.target(), ExportTarget::Stdout);
    a.qr = true;
    assert_eq!(a.target(), ExportTarget::TerminalQr);
    a.output = Some(std::path::PathBuf::from("a.svg"));
    assert_eq!(a.target(), ExportTarget::SvgFile);
    a.qr = false;
    assert_eq!(a.target(), ExportTarget::TextFile);
}

#[test]
fn qr_codes_of_a_configuration() {
    let config = "[Interface]\nAddress = 10.0.0.2/24\n";
    let svg = qr_image(config, true).expect("fits in a QR code");
    assert!(svg.contains("<svg"));
    assert!(svg.contains("#000000"));
    assert_ne!(svg, config);
    let text = qr_image(config, false).expect("fits in a QR code");
    assert!(text.contains('▀') || text.contains('▄') || text.contains('█'));
    assert_ne!(text, config);
    let huge = "x".repeat(5000);
    assert!(matches!(qr_image(&huge, true), Err(AwgctlError::Qr(_))));
    assert!(matches!(qr_image(&huge, false), Err(AwgctlError::Qr(_))));
}

// ---------------------------------------------------------------------------
// What holds whatever the inputs
// ---------------------------------------------------------------------------

#[test]
fn chosen_subnet_passes_the_checks_on_asked_ones() {
    let existing = vec![net("10.0.0.1/24"), net("10.0.1.1/23")];
    let sys = vec![net("10.0.3.4/32"), net("192.168.0.1/16")];
    let chosen = Server::resolve_ip(Vec::new(), &existing, &sys).expect("a subnet is free");
    assert_eq!(chosen, vec![net("10.0.2.1/24")]);
    assert_eq!(server_validate_ip(chosen.clone(), &existing, &sys), Ok(chosen));
}

#[test]
fn probed_ports_climb_through_the_range() {
    let existing = vec![51820, 51821, 51825];
    let mut last = None;
    let mut probed = Vec::new();
    loop {
        match Server::resolve_port(None, &existing, last) {
            PortAction::Probe(p) => {
                assert!((51820..=51900).contains(&p));
                assert!(!existing.contains(&p));
                if let Some((q, _)) = last {
                    assert!(q < p);
                }
                probed.push(p);
                last = Some((p, p == 51826));
            }
            PortAction::Accept(p) => {
                assert_eq!(p, 51826);
                break;
            }
            PortAction::Reject(e) => panic!("unexpected {e:?}"),
        }
    }
    assert_eq!(probed, vec![51822, 51823, 51824, 51826]);
}

#[test]
fn made_server_overlaps_nothing() {
    let servers = vec![
        server("awg0", &["10.0.0.1/24"], 51820, &[], 1),
        server("awg1", &["10.0.1.1/24"], 51821, &[], 2),
    ];
    let sys = vec![net("10.0.2.9/24")];
    let mut step = Server::new_with(new_args(Some("vpn.example.com")), &servers, &strings(&["awg0", "awg1"]), 0, SERVER_KEY.to_string(), None);
    let mut events = 0;
    let made = loop {
        step = match step {
            NewServerStep::Next(s, NewServerAction::ReadSystemAddrs) => {
                s.advance(NewServerEvent::SystemAddrs(sys.clone()))
            }
            NewServerStep::Next(s, NewServerAction::Probe(p)) => s.advance(NewServerEvent::Probed(p > 51823)),
            NewServerStep::Next(_, NewServerAction::FetchPublicAddress) => panic!("the endpoint was given"),
            NewServerStep::Done(made) => break made,
            NewServerStep::Failed(e) => panic!("unexpected {e:?}"),
        };
        events += 1;
    };
    assert_eq!(events, 4);
    assert_eq!(made.listen_port, Some(51824));
    let used = Server::used_addresses(&servers);
    assert_eq!(server_validate_ip(made.address.clone(), &used, &sys), Ok(vec![net("10.0.3.1/24")]));
    assert!(!Server::used_ports(&servers).contains(&51824));
    assert_eq!(validate_name(made.name.clone(), &strings(&["awg0", "awg1"])), Ok("awg2".to_string()));
}

#[test]
fn rows_have_one_cell_per_header() {
    let s = server("awg0", &["10.0.0.1/24"], 51820, &[], 0);
    let c = client("a", &["10.0.0.2/24"], None, true, 0);
    for verbose in [false, true] {
        assert_eq!(s.row(verbose).len(), Server::headers(verbose).len());
        assert_eq!(c.row(verbose).len(), Client::headers(verbose).len());
    }
}

// ---------------------------------------------------------------------------
// The listings shown in the documentation
// ---------------------------------------------------------------------------

fn trimmed_lines(s: &str) -> Vec<String> {
    s.lines().map(|l| l.trim_end().to_string()).collect()
}

fn documented_server() -> Server {
    let mut s = server("awg0", &["10.0.0.1/24"], 51820, &[], 0);
    s.endpoint = Some("example.com".to_string());
    s
}

fn documented_clients() -> Vec<Client> {
    vec![
        client("client1", &["10.0.0.2/32"], Some(&[]), false, 0),
        client("client2", &["10.0.0.3/32"], None, true, 25),
    ]
}

#[test]
fn documented_server_list() {
    let servers = vec![documented_server()];
    assert_eq!(
        trimmed_lines(&format_table(&servers, false, "No servers")),
        strings(&["Name  Address      Port   DNS", "awg0  10.0.0.1/24  51820  —"])
    );
    assert_eq!(
        trimmed_lines(&format_table(&servers, true, "No servers")),
        strings(&[
            "Name  Address      Port   Endpoint     DNS  MTU",
            "awg0  10.0.0.1/24  51820  example.com  —    —",
        ])
    );
}

#[test]
fn documented_client_list() {
    let details = format_details(&documented_server());
    assert_eq!(
        trimmed_lines(&details),
        strings(&[
            "Name      awg0",
            "Address   10.0.0.1/24",
            "Port      51820",
            "Endpoint  example.com",
            "DNS       —",
            "MTU       —",
            "",
        ])
    );
    assert_eq!(
        trimmed_lines(&format_table(&documented_clients(), false, "No clients")),
        strings(&[
            "Name     Address      DNS      Gateway",
            "client1  10.0.0.2/32  —        No",
            "client2  10.0.0.3/32  Inherit  Yes",
        ])
    );
    assert_eq!(
        trimmed_lines(&format_table(&documented_clients(), true, "No clients")),
        strings(&[
            "Name     Address      DNS      Gateway  Keepalive",
            "client1  10.0.0.2/32  —        No       No",
            "client2  10.0.0.3/32  Inherit  Yes      25",
        ])
    );
}

// ---------------------------------------------------------------------------
// The exported configuration
// ---------------------------------------------------------------------------

fn wg_net(s: &str) -> wireguard_conf::ipnet::IpNet {
    s.parse().expect("a valid network")
}

/// The server's interface as `wireguard_conf` holds it, and its model.
fn wg_server(amnezia: Option<wireguard_conf::AmneziaWG>) -> (wireguard_conf::Interface, Server) {
    let mut iface = wireguard_conf::Interface::builder()
        .address(vec![wg_net("10.0.0.1/24"), wg_net("fd00::1/64")])
        .listen_port(51820)
        .private_key(wireguard_conf::PrivateKey::try_from(SERVER_KEY).expect("a valid key"))
        .endpoint("vpn.example.com")
        .dns(vec!["1.1.1.1".to_string()])
        .build();
    iface.amnezia_settings = amnezia.clone();
    let mut s = server("awg0", &["10.0.0.1/24", "fd00::1/64"], 51820, &["1.1.1.1"], 0);
    s.amnezia = amnezia.as_ref().map(amnezia_model);
    (iface, s)
}

/// A client and its peer as `wireguard_conf` holds it.
fn wg_client(ips: &[&str], dns: Option<&[&str]>, gateway: bool, keepalive: u16) -> (wireguard_conf::Peer, Client) {
    let key = wireguard_conf::PrivateKey::random();
    let mut peer = wireguard_conf::Peer::builder()
        .allowed_ips(ips.iter().map(|s| wg_net(s)).collect::<Vec<_>>())
        .private_key(key.clone())
        .build();
    peer.persistent_keepalive = keepalive;
    let mut c = client("alice", ips, dns, gateway, keepalive);
    c.peer.key = PeerKey::Private(key.to_string());
    (peer, c)
}

/// What `wireguard_conf` itself makes of the client for export.
fn wg_config(peer: &wireguard_conf::Peer, iface: &wireguard_conf::Interface, c: &Client) -> String {
    let mut i = peer
        .to_interface(
            iface,
            wireguard_conf::ToInterfaceOptions::new()
                .default_gateway(c.default_gateway)
                .persistent_keepalive(c.peer.persistent_keepalive)
                .strip_server_data(true),
        )
        .expect("a configuration");
    if let Some(d) = &c.dns {
        i.dns = d.clone();
    }
    i.to_string()
}

#[test]
fn exported_configuration_matches_wireguard_conf() {
    let cases: Vec<(Vec<&str>, Option<&[&str]>, bool, u16)> = vec![
        (vec!["10.0.0.2/32"], None, false, 0),
        (vec!["10.0.0.2/32"], None, true, 25),
        (vec!["10.0.0.2/32", "fd00::2/128"], Some(&["9.9.9.9", "dns.google"]), true, 0),
        (vec!["fd00::5/128"], Some(&[]), true, 7),
        (vec!["10.0.0.2/24"], None, false, 0),
    ];
    for amnezia in [None, Some(wireguard_conf::AmneziaWG::random_v2()), Some(wireguard_conf::AmneziaWG::random_v1())] {
        let (iface, s) = wg_server(amnezia);
        for (ips, dns, gateway, keepalive) in &cases {
            let (peer, c) = wg_client(ips, *dns, *gateway, *keepalive);
            assert_eq!(c.config_text(&s), Ok(wg_config(&peer, &iface, &c)));
        }
    }
}

#[test]
fn exported_interface_values() {
    let settings = wireguard_conf::AmneziaWG::random_v2();
    let (_, s) = wg_server(Some(settings.clone()));
    let (_, c) = wg_client(&["10.0.0.2/32", "fd00::2/128"], Some(&["9.9.9.9"]), true, 25);
    let conf = c.into_interface(&s).expect("a configuration");
    assert_eq!(conf.address, vec![net("10.0.0.2/24"), net("fd00::2/64")]);
    assert_eq!(conf.dns, strings(&["9.9.9.9"]));
    let mut stripped = settings;
    stripped.strip_server_data();
    assert_eq!(conf.amnezia, Some(amnezia_model(&stripped)));
    match (&conf.amnezia, &s.amnezia) {
        (Some(Amnezia::V2(client)), Some(Amnezia::V2(server))) => {
            assert!(server.i1.is_some());
            assert_eq!(client.i1, None);
            assert_eq!(client.i5, None);
            assert_eq!(client.jc, server.jc);
            assert_eq!(client.h1, server.h1);
            assert_eq!(client.h4, server.h4);
        }
        _ => panic!("version 2.0 settings on both sides"),
    }
    assert_eq!(conf.peers.len(), 1);
    assert_eq!(conf.peers[0].endpoint.as_deref(), Some("vpn.example.com:51820"));
    assert_eq!(conf.peers[0].allowed_ips, vec![net("0.0.0.0/0"), net("::/0")]);
    assert_eq!(conf.peers[0].key, PeerKey::Private(SERVER_KEY.to_string()));
    assert_eq!(conf.peers[0].persistent_keepalive, 25);

    let (_, inherit) = wg_client(&["10.0.0.3/32"], None, false, 0);
    let conf = inherit.into_interface(&s).expect("a configuration");
    assert_eq!(conf.dns, strings(&["1.1.1.1"]));
    assert_eq!(conf.peers[0].allowed_ips, vec![net("10.0.0.1/24"), net("fd00::1/64")]);
    let (_, none) = wg_client(&["10.0.0.3/32"], Some(&[]), false, 0);
    assert_eq!(none.into_interface(&s).expect("a configuration").dns, Vec::<String>::new());
}

#[test]
fn exported_configuration_errors() {
    let (_, s) = wg_server(None);
    let (_, outside) = wg_client(&["10.0.0.2/32", "10.7.0.2/32"], None, false, 0);
    assert_eq!(
        outside.config_text(&s),
        Err(AwgctlError::AddressOutsideSubnet(net("10.7.0.2/32")))
    );
    let mut public_only = client("bob", &["10.0.0.2/32"], None, false, 0);
    public_only.peer.key = PeerKey::Public(SERVER_KEY.to_string());
    assert_eq!(
        public_only.config_text(&s),
        Err(AwgctlError::Wireguard(wireguard_conf::WireguardError::NoPrivateKeyProvided))
    );
    let (_, mut nothing) = wg_client(&[], None, false, 0);
    nothing.peer.allowed_ips = Vec::new();
    assert!(matches!(
        nothing.into_interface(&s),
        Err(AwgctlError::Wireguard(wireguard_conf::WireguardError::NoAssignedIP))
    ));
    let bad_key = client("dave", &["10.0.0.4/32"], None, false, 0);
    assert!(matches!(bad_key.config_text(&s), Err(AwgctlError::Wireguard(_))));
    let (_, good) = wg_client(&["10.0.0.4/32"], None, false, 0);
    let mut bad_server = s;
    bad_server.private_key = "not a key".to_string();
    assert!(matches!(good.config_text(&bad_server), Err(AwgctlError::Wireguard(_))));
}

#[test]
fn amnezia_settings_as_plain_values() {
    let v1 = wireguard_conf::AmneziaWG::random_v1();
    match amnezia_model(&v1) {
        Amnezia::V1(m) => match &v1 {
            wireguard_conf::AmneziaWG::V1(w) => {
                assert_eq!((m.jc, m.jmin, m.jmax, m.s1, m.s2), (w.jc, w.jmin, w.jmax, w.s1, w.s2));
                assert_eq!((m.h1, m.h2, m.h3, m.h4), (w.h1, w.h2, w.h3, w.h4));
            }
            _ => panic!("version 1.0 settings"),
        },
        _ => panic!("version 1.0 settings as plain values"),
    }
    let v2 = wireguard_conf::AmneziaWG::V2(wireguard_conf::AmneziaWG2 {
        jc: Some(4),
        jmin: Some(10),
        jmax: Some(50),
        s1: Some(3),
        s2: None,
        s3: Some(7),
        s4: None,
        h1: Some(wireguard_conf::HRange::new(5, 1000)),
        h2: Some(wireguard_conf::HRange::new(2000, 4294967295)),
        h3: None,
        h4: Some(wireguard_conf::HRange::new(0, 0)),
        i1: Some("<b 0x01>".to_string()),
        i2: None,
        i3: None,
        i4: None,
        i5: Some("<r 2>".to_string()),
    });
    let expected = Amnezia::V2(AmneziaV2 {
        jc: Some(4),
        jmin: Some(10),
        jmax: Some(50),
        s1: Some(3),
        s2: None,
        s3: Some(7),
        s4: None,
        h1: Some(HSpan { min: 5, max: 1000 }),
        h2: Some(HSpan { min: 2000, max: 4294967295 }),
        h3: None,
        h4: Some(HSpan { min: 0, max: 0 }),
        i1: Some("<b 0x01>".to_string()),
        i2: None,
        i3: None,
        i4: None,
        i5: Some("<r 2>".to_string()),
    });
    assert_eq!(amnezia_model(&v2), expected);
}

#[test]
fn documented_first_client_is_a_single_host() {
    let mut s = server("awg0", &["10.0.0.1/24"], 51820, &[], 0);
    let made = Client::new_with(add_args("client1", &[]), &Vec::new(), &mut s, PeerKey::Private("k".into()), 0)
        .expect("the client is made");
    assert_eq!(made.peer.allowed_ips, vec![net("10.0.0.2/32")]);
    assert_eq!(made.row(false)[1], "10.0.0.2/32");
}

#[test]
fn made_client_passes_stored_checks() {
    let mut s = server("awg0", &["10.0.0.1/24", "fd00::1/64"], 51820, &[], 0);
    let existing = vec![client("alice", &["10.0.0.2/24"], None, false, 0)];
    let mut args = add_args("bob", &[]);
    args.no_dns = true;
    let made = Client::new_with(args, &existing, &mut s, PeerKey::Private("k".into()), 1)
        .expect("the client is made");
    assert_eq!(made.validate(), Ok(()));
    let used = vec![
        IpAddress::V4(0x0a00_0002),
        IpAddress::V4(0x0a00_0001),
        parse_ip_addr("fd00::1").expect("an address"),
    ];
    let server_ips = vec![net("10.0.0.1/24"), net("fd00::1/64")];
    assert_eq!(
        client_validate_ip(made.peer.allowed_ips.clone(), &used, &server_ips),
        Ok(vec![net("10.0.0.3/32")])
    );
}
