//! The making of a new server, step by step. Every decision is made here;
//! between the steps the caller reads the system's addresses, tries to bind
//! ports and asks `checkip.amazonaws.com` for the public address, as a step
//! asks, and hands back what came of it.
use crate::amnezia::{Amnezia, HSpan, amnezia_from_text, random_amnezia};
use crate::client::{now_unix_nanos, random_private_key};
use crate::commands::NewArgs;
use crate::errors::AwgctlError;
use crate::net::IpNet;
use crate::server::{
    PortAction, Server, all_addresses, lemma_all_addresses, auto_name, copy_nets, endpoint_from_response_spec, server_check,
    lemma_auto_name_free, lemma_port_probes, lemma_resolve_ip_ok, max_awg_index,
    resolve_ip_spec, resolve_port_spec,
};
use crate::text::{first_false, lemma_first_false_some, lemma_trim_idempotent, trim};
use crate::util::{
    dns_flags, name_taken, overlaps, port_configured, server_ip_ok, valid_dns_entry, valid_name_chars,
    validate_dns, PORT_RANGE_END, PORT_RANGE_START,
};
use vstd::prelude::*;

verus! {

/// What a new server waits for.
#[derive(Debug, Clone, Copy, PartialEq, Eq, Structural)]
pub enum NewServerStage {
    /// The addresses of the system's interfaces.
    SystemAddrs,
    /// Whether the port probed last (`port`) could be bound.
    Port,
    /// The reply of `checkip.amazonaws.com`.
    Endpoint,
}

/// The I/O that a step asks the caller for.
#[derive(Debug, Clone, Copy, PartialEq, Eq, Structural)]
pub enum NewServerAction {
    /// Read the addresses of the system's interfaces.
    ReadSystemAddrs,
    /// Try to bind this UDP port on all addresses.
    Probe(u16),
    /// Ask `checkip.amazonaws.com` for the public address.
    FetchPublicAddress,
}

/// What came of the I/O that the last step asked for.
pub enum NewServerEvent {
    /// The addresses of the system's interfaces.
    SystemAddrs(Vec<IpNet>),
    /// Whether the port probed could be bound.
    Probed(bool),
    /// The whole HTTP reply of `checkip.amazonaws.com`.
    Reply(String),
}

/// A server in the making: what was asked for, what the other servers
/// hold, and what has been settled so far.
pub struct NewServer {
    pub stage: NewServerStage,
    pub name: String,
    pub created_at: i128,
    pub used_addresses: Vec<IpNet>,
    pub used_ports: Vec<u16>,
    pub asked_address: Vec<IpNet>,
    pub listen_port: Option<u16>,
    pub endpoint: Option<String>,
    pub dns: Vec<String>,
    pub mtu: Option<usize>,
    pub private_key: String,
    pub amnezia: Option<Amnezia<HSpan>>,
    pub sys_addrs: Vec<IpNet>,
    pub address: Vec<IpNet>,
    pub port: u16,
}

/// The outcome of a step.
pub enum NewServerStep {
    /// Do the action, then hand its outcome to the server in the making.
    Next(NewServer, NewServerAction),
    /// The server is made.
    Done(Server),
    /// The server cannot be made.
    Failed(AwgctlError),
}

/// A server in the making, as plain values.
#[verifier::ext_equal]
pub struct NewServerView {
    pub stage: NewServerStage,
    pub name: Seq<char>,
    pub created_at: i128,
    pub used_addresses: Seq<IpNet>,
    pub used_ports: Seq<u16>,
    pub asked_address: Seq<IpNet>,
    pub listen_port: Option<u16>,
    pub endpoint: Option<Seq<char>>,
    pub dns: Seq<String>,
    pub mtu: Option<usize>,
    pub private_key: Seq<char>,
    pub amnezia: Option<Amnezia<HSpan>>,
    pub sys_addrs: Seq<IpNet>,
    pub address: Seq<IpNet>,
    pub port: u16,
}

pub open spec fn opt_string_view(s: Option<String>) -> Option<Seq<char>> {
    match s {
        Some(t) => Some(t@),
        None => None,
    }
}

impl View for NewServer {
    type V = NewServerView;

    open spec fn view(&self) -> NewServerView {
        NewServerView {
            stage: self.stage,
            name: self.name@,
            created_at: self.created_at,
            used_addresses: self.used_addresses@,
            used_ports: self.used_ports@,
            asked_address: self.asked_address@,
            listen_port: self.listen_port,
            endpoint: opt_string_view(self.endpoint),
            dns: self.dns@,
            mtu: self.mtu,
            private_key: self.private_key@,
            amnezia: self.amnezia,
            sys_addrs: self.sys_addrs@,
            address: self.address@,
            port: self.port,
        }
    }
}

/// The name of a new server, or why it cannot have the one asked for.
pub open spec fn name_outcome(name: Option<String>, existing: Seq<String>) -> Result<
    Seq<char>,
    AwgctlError,
> {
    match name {
        Some(n) => if !valid_name_chars(n@) {
            Err(AwgctlError::InvalidName(n))
        } else if name_taken(n@, existing) {
            Err(AwgctlError::NameAlreadyExists(n))
        } else {
            Ok(n@)
        },
        None => Ok(auto_name(existing)),
    }
}

/// The listen ports of the servers, in order.
pub open spec fn ports_of(servers: Seq<Server>) -> Seq<u16> {
    servers.map_values(|s: Server| s.listen_port.unwrap())
}

/// The server in the making that `new` starts from, once the name is
/// settled.
pub open spec fn started(
    args: NewArgs,
    servers: Seq<Server>,
    name: Seq<char>,
    created_at: i128,
    private_key: Seq<char>,
    amnezia: Option<Amnezia<HSpan>>,
) -> NewServerView {
    NewServerView {
        stage: NewServerStage::SystemAddrs,
        name,
        created_at,
        used_addresses: all_addresses(servers, servers.len() as int),
        used_ports: ports_of(servers),
        asked_address: args.address@,
        listen_port: args.listen_port,
        endpoint: opt_string_view(args.endpoint),
        dns: args.dns@,
        mtu: args.mtu,
        private_key,
        amnezia,
        sys_addrs: Seq::empty(),
        address: Seq::empty(),
        port: 0,
    }
}

/// Whether `r` is the server that `v` becomes with the public endpoint
/// `endpoint`: its DNS entries are checked last, and a server made has no
/// peers yet.
pub open spec fn finished(v: NewServerView, endpoint: Seq<char>, r: NewServerStep) -> bool {
    match first_false(dns_flags(v.dns)) {
        Some(i) => r == NewServerStep::Failed(AwgctlError::InvalidDnsEntry(v.dns[i])),
        None => r matches NewServerStep::Done(s) && {
            &&& s.name@ == v.name
            &&& s.created_at == v.created_at
            &&& s.address@ == v.address
            &&& s.listen_port == Some(v.port)
            &&& s.endpoint matches Some(e) && e@ == endpoint
            &&& s.dns@ == v.dns
            &&& s.mtu == v.mtu
            &&& s.private_key@ == v.private_key
            &&& s.amnezia == v.amnezia
            &&& s.peers@.len() == 0
        },
    }
}

/// Whether `r` is what comes of the port step `a` for `v`: another probe,
/// the end, or, with the port chosen, the endpoint asked for (if not blank)
/// or a question to `checkip.amazonaws.com`.
pub open spec fn after_port(v: NewServerView, a: PortAction, r: NewServerStep) -> bool {
    match a {
        PortAction::Probe(p) => r matches NewServerStep::Next(t, act) && act
            == NewServerAction::Probe(p) && t@ == NewServerView {
            stage: NewServerStage::Port,
            port: p,
            ..v
        },
        PortAction::Reject(e) => r == NewServerStep::Failed(e),
        PortAction::Accept(p) => match v.endpoint {
            Some(e) => if trim(e).len() == 0 {
                r == NewServerStep::Failed(AwgctlError::EmptyEndpoint)
            } else {
                finished(NewServerView { port: p, ..v }, e, r)
            },
            None => r matches NewServerStep::Next(t, act) && act
                == NewServerAction::FetchPublicAddress && t@ == NewServerView {
                stage: NewServerStage::Endpoint,
                port: p,
                ..v
            },
        },
    }
}

/// Whether the event is the outcome of what the stage waits for.
pub open spec fn event_fits(stage: NewServerStage, event: NewServerEvent) -> bool {
    match (stage, event) {
        (NewServerStage::SystemAddrs, NewServerEvent::SystemAddrs(_)) => true,
        (NewServerStage::Port, NewServerEvent::Probed(_)) => true,
        (NewServerStage::Endpoint, NewServerEvent::Reply(_)) => true,
        _ => false,
    }
}

/// What one step makes of `v` and the outcome of its I/O.
pub open spec fn step_outcome(v: NewServerView, event: NewServerEvent, r: NewServerStep) -> bool {
    match event {
        NewServerEvent::SystemAddrs(sys) => match resolve_ip_spec(
            v.asked_address,
            v.used_addresses,
            sys@,
        ) {
            Err(e) => r == NewServerStep::Failed(e),
            Ok(a) => after_port(
                NewServerView { sys_addrs: sys@, address: a, ..v },
                resolve_port_spec(v.listen_port, v.used_ports, None),
                r,
            ),
        },
        NewServerEvent::Probed(ok) => after_port(
            v,
            resolve_port_spec(v.listen_port, v.used_ports, Some((v.port, ok))),
            r,
        ),
        NewServerEvent::Reply(resp) => match endpoint_from_response_spec(resp@, v.sys_addrs) {
            None => r == NewServerStep::Failed(AwgctlError::EndpointResolutionFailed),
            Some(e) => finished(v, e, r),
        },
    }
}

impl Server {
    /// Starts a new server at the time `created_at`, with the private key
    /// `private_key` and the AmneziaWG settings `amnezia`: settles its name
    /// among `names` (those of the stored servers and of the interfaces
    /// configured) and asks for the system's addresses.
    pub fn new_with(
        args: NewArgs,
        servers: &Vec<Server>,
        names: &Vec<String>,
        created_at: i128,
        private_key: String,
        amnezia: Option<Amnezia<HSpan>>,
    ) -> (r: NewServerStep)
        requires
            args.name is None ==> max_awg_index(names@, names@.len() as int) != Some(u32::MAX),
            forall|i: int| 0 <= i < servers@.len() ==> (#[trigger] servers@[i]).listen_port is Some,
        ensures
            match name_outcome(args.name, names@) {
                Err(e) => r == NewServerStep::Failed(e),
                Ok(n) => r matches NewServerStep::Next(t, act) && act
                    == NewServerAction::ReadSystemAddrs && t@ == started(
                    args,
                    servers@,
                    n,
                    created_at,
                    private_key@,
                    amnezia,
                ),
            },
    {
        let NewArgs { name, address, listen_port, endpoint, dns, mtu } = args;
        let name = match Server::resolve_name(name, names) {
            Ok(n) => n,
            Err(e) => {
                return NewServerStep::Failed(e);
            },
        };
        let used_addresses = Server::used_addresses(servers);
        let used_ports = Server::used_ports(servers);
        let ghost key = private_key@;
        let s = NewServer {
            stage: NewServerStage::SystemAddrs,
            name,
            created_at,
            used_addresses,
            used_ports,
            asked_address: address,
            listen_port,
            endpoint,
            dns,
            mtu,
            private_key,
            amnezia,
            sys_addrs: Vec::new(),
            address: Vec::new(),
            port: 0,
        };
        assert(s@ =~= started(args, servers@, s.name@, created_at, key, s.amnezia));
        NewServerStep::Next(s, NewServerAction::ReadSystemAddrs)
    }

    /// Starts a new server now, with a fresh random private key and fresh
    /// random AmneziaWG 2.0 settings; see `new_with`.
    pub fn new(args: NewArgs, servers: &Vec<Server>, names: &Vec<String>) -> (r: NewServerStep)
        requires
            args.name is None ==> max_awg_index(names@, names@.len() as int) != Some(u32::MAX),
            forall|i: int| 0 <= i < servers@.len() ==> (#[trigger] servers@[i]).listen_port is Some,
        ensures
            match name_outcome(args.name, names@) {
                Err(e) => r == NewServerStep::Failed(e),
                Ok(n) => r matches NewServerStep::Next(t, act) && act
                    == NewServerAction::ReadSystemAddrs && exists|
                    c: i128,
                    k: Seq<char>,
                    a: Option<Amnezia<HSpan>>,
                | crate::export::key_decodes(k) && a is Some && t@ == started(args, servers@, n, c, k, a),
            },
    {
        let now = now_unix_nanos();
        let key = random_private_key();
        let settings = random_amnezia();
        let ghost v = choose|v: crate::amnezia::AmneziaView| crate::amnezia::amnezia_text_of(settings, v);
        assert(crate::amnezia::amnezia_text_of(settings, v));
        let amnezia = amnezia_from_text(settings);
        let ghost k = key@;
        let r = Server::new_with(args, servers, names, now, key, amnezia);
        proof {
            if let Ok(n) = name_outcome(args.name, names@) {
                assert(crate::export::key_decodes(k) && amnezia is Some);
            }
        }
        r
    }
}

impl NewServer {
    /// The last step: checks the DNS entries and makes the server.
    fn finish(self, endpoint: String) -> (r: NewServerStep)
        ensures
            finished(self@, endpoint@, r),
    {
        let NewServer { name, created_at, address, port, dns, mtu, private_key, amnezia, .. } = self;
        match validate_dns(dns) {
            Err(e) => NewServerStep::Failed(e),
            Ok(dns) => NewServerStep::Done(
                Server {
                    name,
                    created_at,
                    address,
                    listen_port: Some(port),
                    endpoint: Some(endpoint),
                    dns,
                    mtu,
                    private_key,
                    amnezia,
                    peers: Vec::new(),
                },
            ),
        }
    }

    /// What follows the port step `a`.
    fn after_port(self, a: PortAction) -> (r: NewServerStep)
        ensures
            after_port(self@, a, r),
    {
        match a {
            PortAction::Probe(p) => {
                let mut s = self;
                s.stage = NewServerStage::Port;
                s.port = p;
                assert(s@ =~= NewServerView { stage: NewServerStage::Port, port: p, ..self@ });
                NewServerStep::Next(s, NewServerAction::Probe(p))
            },
            PortAction::Reject(e) => NewServerStep::Failed(e),
            PortAction::Accept(p) => {
                let mut s = self;
                s.port = p;
                let ghost v = s@;
                assert(v =~= NewServerView { port: p, ..self@ });
                match s.endpoint.take() {
                    Some(e) => match Server::resolve_endpoint(e) {
                        Err(err) => NewServerStep::Failed(err),
                        Ok(e) => {
                            let r = s.finish(e);
                            assert(finished(v, e@, r));
                            r
                        },
                    },
                    None => {
                        s.stage = NewServerStage::Endpoint;
                        assert(s@ =~= NewServerView { stage: NewServerStage::Endpoint, ..v });
                        NewServerStep::Next(s, NewServerAction::FetchPublicAddress)
                    },
                }
            },
        }
    }

    /// One step of making a new server: `event` is what came of the I/O
    /// that the last step asked for.
    pub fn advance(self, event: NewServerEvent) -> (r: NewServerStep)
        requires
            event_fits(self.stage, event),
        ensures
            step_outcome(self@, event, r),
    {
        match event {
            NewServerEvent::SystemAddrs(sys) => {
                let ips = copy_nets(&self.asked_address);
                match Server::resolve_ip(ips, &self.used_addresses, &sys) {
                    Err(e) => NewServerStep::Failed(e),
                    Ok(a) => {
                        let ghost sv = sys@;
                        let mut s = self;
                        s.sys_addrs = sys;
                        s.address = a;
                        assert(s@ =~= NewServerView { sys_addrs: sv, address: a@, ..self@ });
                        let pa = Server::resolve_port(s.listen_port, &s.used_ports, None);
                        s.after_port(pa)
                    },
                }
            },
            NewServerEvent::Probed(ok) => {
                let pa = Server::resolve_port(self.listen_port, &self.used_ports, Some((self.port, ok)));
                self.after_port(pa)
            },
            NewServerEvent::Reply(resp) => match Server::endpoint_from_response(
                resp.as_str(),
                &self.sys_addrs,
            ) {
                Err(e) => NewServerStep::Failed(e),
                Ok(e) => self.finish(e),
            },
        }
    }
}

/// What holds of a server in the making once the system's addresses are
/// known: it has subnets, none of which overlaps another server's subnet or
/// an address of the system, and the port probed or chosen is no other
/// server's; it is the port asked for, or else one of the automatic range.
pub open spec fn making_ok(v: NewServerView) -> bool {
    v.stage != NewServerStage::SystemAddrs ==> {
        &&& v.address.len() > 0
        &&& forall|i: int|
            0 <= i < v.address.len() ==> server_ip_ok(
                #[trigger] v.address[i],
                v.used_addresses,
                v.sys_addrs,
            )
        &&& !port_configured(v.port, v.used_ports)
        &&& v.listen_port matches Some(p) ==> p == v.port
        &&& v.listen_port is None ==> PORT_RANGE_START <= v.port <= PORT_RANGE_END
    }
}

/// What holds of a server that `new` makes, against the server in the
/// making that it came from: it passes the checks that loading a stored
/// server makes, keeps the name, its subnets overlap no other server's
/// subnet and no address of the system, its port is no other server's (the
/// one asked for, or one of the automatic range), its DNS entries are valid
/// and it has no peers.
pub open spec fn made_ok(s: Server, v: NewServerView) -> bool {
    &&& server_check(&s) is None
    &&& s.name@ == v.name
    &&& s.address@.len() > 0
    &&& forall|i: int|
        0 <= i < s.address@.len() ==> server_ip_ok(
            #[trigger] s.address@[i],
            v.used_addresses,
            v.sys_addrs,
        )
    &&& s.listen_port matches Some(p) && !port_configured(p, v.used_ports) && (v.listen_port matches Some(
        q,
    ) ==> q == p) && (v.listen_port is None ==> PORT_RANGE_START <= p <= PORT_RANGE_END)
    &&& forall|i: int| 0 <= i < s.dns@.len() ==> valid_dns_entry((#[trigger] s.dns@[i])@)
    &&& s.peers@.len() == 0
}

/// The name that `new` settles on is a valid name that no server and no
/// configured interface has.
pub proof fn lemma_new_name_free(name: Option<String>, names: Seq<String>)
    requires
        name is None ==> max_awg_index(names, names.len() as int) != Some(u32::MAX),
    ensures
        name_outcome(name, names) matches Ok(n) ==> valid_name_chars(n) && !name_taken(n, names),
{
    if name is None {
        lemma_auto_name_free(names);
    }
}

/// A server in the making starts with the AmneziaWG settings and the
/// private key it is given, and checks the subnets it asks for or is given
/// against every subnet of every existing server: one that passes the check
/// overlaps none of them.
pub proof fn lemma_started_settings(
    v: NewServerView,
    args: NewArgs,
    servers: Seq<Server>,
    name: Seq<char>,
    created_at: i128,
    private_key: Seq<char>,
    amnezia: Option<Amnezia<HSpan>>,
)
    requires
        v == started(args, servers, name, created_at, private_key, amnezia),
    ensures
        v.amnezia == amnezia,
        v.private_key == private_key,
        forall|i: int, j: int|
            0 <= i < servers.len() && 0 <= j < servers[i].address@.len() ==> v.used_addresses.contains(
                #[trigger] servers[i].address@[j],
            ),
        forall|ua: IpNet, sys: Seq<IpNet>, i: int, j: int|
            #![trigger server_ip_ok(ua, v.used_addresses, sys), servers[i].address@[j]]
            server_ip_ok(ua, v.used_addresses, sys) && 0 <= i < servers.len() && 0 <= j
                < servers[i].address@.len() ==> !overlaps(ua, servers[i].address@[j]),
{
    lemma_all_addresses(servers, servers.len() as int);
    assert forall|ua: IpNet, sys: Seq<IpNet>, i: int, j: int|
        #![trigger server_ip_ok(ua, v.used_addresses, sys), servers[i].address@[j]]
        server_ip_ok(ua, v.used_addresses, sys) && 0 <= i < servers.len() && 0 <= j
            < servers[i].address@.len() implies !overlaps(ua, servers[i].address@[j]) by {
        let x = servers[i].address@[j];
        assert(v.used_addresses.contains(x));
        let k = choose|k: int| 0 <= k < v.used_addresses.len() && v.used_addresses[k] == x;
        assert(!overlaps(ua, v.used_addresses[k]));
    }
}

/// No step of making a server changes the AmneziaWG settings or the private
/// key it started with, and a server made carries them.
pub proof fn lemma_step_keeps_settings(v: NewServerView, event: NewServerEvent, r: NewServerStep)
    requires
        step_outcome(v, event, r),
    ensures
        r matches NewServerStep::Next(t, _) ==> t@.amnezia == v.amnezia && t@.private_key
            == v.private_key,
        r matches NewServerStep::Done(s) ==> s.amnezia == v.amnezia && s.private_key@
            == v.private_key,
{
    lemma_first_false_some(dns_flags(v.dns));
}

proof fn lemma_finished_ok(v: NewServerView, e: Seq<char>, r: NewServerStep)
    requires
        v.stage != NewServerStage::SystemAddrs,
        making_ok(v),
        finished(v, e, r),
        trim(e).len() > 0,
    ensures
        r matches NewServerStep::Done(s) ==> made_ok(s, v),
{
    lemma_first_false_some(dns_flags(v.dns));
    if let NewServerStep::Done(s) = r {
        assert forall|i: int| 0 <= i < s.dns@.len() implies valid_dns_entry(
            (#[trigger] s.dns@[i])@,
        ) by {
            assert(dns_flags(v.dns)[i]);
        }
    }
}

/// Every step of making a server keeps `making_ok`, which holds from the
/// start (whose stage waits for the system's addresses), and a server made
/// meets `made_ok`: whatever the system answers, a new server never gets a
/// subnet that overlaps another server's or the system's, nor another
/// server's port.
pub proof fn lemma_advance_ok(v: NewServerView, event: NewServerEvent, r: NewServerStep)
    requires
        making_ok(v),
        event_fits(v.stage, event),
        step_outcome(v, event, r),
    ensures
        r matches NewServerStep::Next(t, _) ==> making_ok(t@),
        r matches NewServerStep::Done(s) ==> made_ok(s, v),
{
    match event {
        NewServerEvent::SystemAddrs(sys) => {
            lemma_resolve_ip_ok(v.asked_address, v.used_addresses, sys@);
            lemma_port_probes(v.used_ports, None);
        },
        NewServerEvent::Probed(ok) => {
            lemma_port_probes(v.used_ports, Some((v.port, ok)));
            let a = resolve_port_spec(v.listen_port, v.used_ports, Some((v.port, ok)));
            if let PortAction::Accept(p) = a {
                let w = NewServerView { port: p, ..v };
                assert(w =~= v);
                if let Some(e) = v.endpoint {
                    if trim(e).len() != 0 {
                        lemma_finished_ok(v, e, r);
                    }
                }
            }
        },
        NewServerEvent::Reply(resp) => {
            if let Some(e) = endpoint_from_response_spec(resp@, v.sys_addrs) {
                let k = crate::text::find_from(resp@, crate::server::blank_line(), 0)->Some_0;
                lemma_trim_idempotent(resp@.skip(k + 4));
                lemma_finished_ok(v, e, r);
            }
        },
    }
}

} // verus!
