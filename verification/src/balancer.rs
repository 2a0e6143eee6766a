//! L4 load balancers on routers: their configuration, the nftables rules
//! that implement them (as kube-proxy's nftables mode does, with `numgen inc`
//! or `numgen random` DNAT maps), and the per-router list of balancers.

use vstd::prelude::*;
use crate::text::{contains, decimal, into_string, occurs_at, push_decimal, push_lit, push_str, push_string, strings_view};
use crate::time::Duration;

verus! {

/// An IPv4 address, by its four octets.
#[derive(Clone, Copy, Debug, PartialEq, Eq, Structural)]
pub struct Ipv4 {
    pub a: u8,
    pub b: u8,
    pub c: u8,
    pub d: u8,
}

impl Ipv4 {
    /// The address `a.b.c.d`.
    pub fn new(a: u8, b: u8, c: u8, d: u8) -> (ip: Ipv4)
        ensures
            ip == (Ipv4 { a, b, c, d }),
    {
        Ipv4 { a, b, c, d }
    }
}

/// The dotted-decimal text of an address.
pub open spec fn ip_text(ip: Ipv4) -> Seq<char> {
    decimal(ip.a as nat) + "."@ + decimal(ip.b as nat) + "."@ + decimal(ip.c as nat) + "."@
        + decimal(ip.d as nat)
}

/// Appends the dotted-decimal text of `ip`.
pub fn push_ip(v: &mut Vec<char>, ip: Ipv4)
    ensures
        final(v)@ == old(v)@ + ip_text(ip),
{
    push_decimal(v, ip.a as u64);
    push_str(v, ".");
    push_decimal(v, ip.b as u64);
    push_str(v, ".");
    push_decimal(v, ip.c as u64);
    push_str(v, ".");
    push_decimal(v, ip.d as u64);
}

/// A node of the lab topology.
#[derive(Clone, Copy, Debug, PartialEq, Eq, Structural)]
pub struct NodeId(pub u64);

/// Load balancing algorithm for distributing connections across backends.
#[derive(Clone, Copy, Debug, PartialEq, Eq, Structural)]
pub enum LbAlgorithm {
    /// Rotate through backends in order (`numgen inc mod N`).
    RoundRobin,
    /// A random backend for each new connection (`numgen random mod N`).
    Random,
}

impl Default for LbAlgorithm {
    fn default() -> (a: Self)
        ensures
            a == LbAlgorithm::RoundRobin,
    {
        LbAlgorithm::RoundRobin
    }
}

/// Session affinity mode for a load balancer.
#[derive(Clone, Copy, Debug, PartialEq, Eq, Structural)]
pub enum SessionAffinity {
    /// No affinity: each new connection is balanced independently.
    NoAffinity,
    /// Pin a client IP to the same backend for `timeout` after its last packet.
    ClientIp { timeout: Duration },
}

impl Default for SessionAffinity {
    fn default() -> (a: Self)
        ensures
            a == SessionAffinity::NoAffinity,
    {
        SessionAffinity::NoAffinity
    }
}

/// Protocol for a load balancer: which traffic the DNAT rules match.
#[derive(Clone, Copy, Debug, PartialEq, Eq, Structural)]
pub enum LbProtocol {
    /// TCP only.
    Tcp,
    /// UDP only.
    Udp,
    /// TCP and UDP on the same port.
    Both,
}

impl Default for LbProtocol {
    fn default() -> (p: Self)
        ensures
            p == LbProtocol::Tcp,
    {
        LbProtocol::Tcp
    }
}

/// A backend endpoint of a balancer: a device and a port on it.
#[derive(Clone, Copy, Debug, PartialEq, Eq, Structural)]
pub struct BalancerBackend {
    pub device: NodeId,
    pub port: u16,
}

/// Configuration for an L4 load balancer on a router.
#[derive(Debug)]
pub struct BalancerConfig {
    pub name: String,
    pub vip: Ipv4,
    pub port: u16,
    pub backends: Vec<BalancerBackend>,
    pub algorithm: LbAlgorithm,
    pub affinity: SessionAffinity,
    pub protocol: LbProtocol,
}

/// The content of a balancer configuration.
pub struct BalancerView {
    pub name: Seq<char>,
    pub vip: Ipv4,
    pub port: u16,
    pub backends: Seq<BalancerBackend>,
    pub algorithm: LbAlgorithm,
    pub affinity: SessionAffinity,
    pub protocol: LbProtocol,
}

impl View for BalancerConfig {
    type V = BalancerView;

    open spec fn view(&self) -> BalancerView {
        BalancerView {
            name: self.name@,
            vip: self.vip,
            port: self.port,
            backends: self.backends@,
            algorithm: self.algorithm,
            affinity: self.affinity,
            protocol: self.protocol,
        }
    }
}

impl Clone for BalancerConfig {
    fn clone(&self) -> (c: Self)
        ensures
            c@ == self@,
    {
        BalancerConfig {
            name: self.name.clone(),
            vip: self.vip,
            port: self.port,
            backends: self.backends.clone(),
            algorithm: self.algorithm,
            affinity: self.affinity,
            protocol: self.protocol,
        }
    }
}

impl BalancerConfig {
    /// A balancer `name` on `vip:port`, with no backends yet: TCP,
    /// round-robin, no session affinity.
    pub fn new(name: &str, vip: Ipv4, port: u16) -> (c: Self)
        ensures
            c@ == (BalancerView {
                name: name@,
                vip,
                port,
                backends: Seq::empty(),
                algorithm: LbAlgorithm::RoundRobin,
                affinity: SessionAffinity::NoAffinity,
                protocol: LbProtocol::Tcp,
            }),
    {
        let c = BalancerConfig {
            name: name.to_owned(),
            vip,
            port,
            backends: Vec::new(),
            algorithm: LbAlgorithm::default(),
            affinity: SessionAffinity::default(),
            protocol: LbProtocol::default(),
        };
        proof {
            assert(c.backends@ =~= Seq::<BalancerBackend>::empty());
        }
        c
    }

    /// Adds the backend `device:port`.
    pub fn backend(self, device: NodeId, port: u16) -> (c: Self)
        ensures
            c@ == (BalancerView {
                backends: self@.backends.push(BalancerBackend { device, port }),
                ..self@
            }),
    {
        let mut c = self;
        c.backends.push(BalancerBackend { device, port });
        c
    }

    /// Sets the balancing algorithm.
    pub fn algorithm(self, algo: LbAlgorithm) -> (c: Self)
        ensures
            c@ == (BalancerView { algorithm: algo, ..self@ }),
    {
        let mut c = self;
        c.algorithm = algo;
        c
    }

    /// Round-robin balancing.
    pub fn round_robin(self) -> (c: Self)
        ensures
            c@ == (BalancerView { algorithm: LbAlgorithm::RoundRobin, ..self@ }),
    {
        self.algorithm(LbAlgorithm::RoundRobin)
    }

    /// Random balancing.
    pub fn random(self) -> (c: Self)
        ensures
            c@ == (BalancerView { algorithm: LbAlgorithm::Random, ..self@ }),
    {
        self.algorithm(LbAlgorithm::Random)
    }

    /// Pins client IPs to their backend for `timeout`.
    pub fn session_affinity(self, timeout: Duration) -> (c: Self)
        ensures
            c@ == (BalancerView { affinity: SessionAffinity::ClientIp { timeout }, ..self@ }),
    {
        let mut c = self;
        c.affinity = SessionAffinity::ClientIp { timeout };
        c
    }

    /// Sets the protocol.
    pub fn protocol(self, proto: LbProtocol) -> (c: Self)
        ensures
            c@ == (BalancerView { protocol: proto, ..self@ }),
    {
        let mut c = self;
        c.protocol = proto;
        c
    }

    /// UDP only.
    pub fn udp(self) -> (c: Self)
        ensures
            c@ == (BalancerView { protocol: LbProtocol::Udp, ..self@ }),
    {
        self.protocol(LbProtocol::Udp)
    }

    /// TCP and UDP.
    pub fn tcp_and_udp(self) -> (c: Self)
        ensures
            c@ == (BalancerView { protocol: LbProtocol::Both, ..self@ }),
    {
        self.protocol(LbProtocol::Both)
    }
}

/// A backend with its address resolved.
#[derive(Clone, Copy, Debug, PartialEq, Eq, Structural)]
pub struct ResolvedBackend {
    pub ip: Ipv4,
    pub port: u16,
}

/// A balancer with its backends' addresses resolved from the topology.
#[derive(Debug)]
pub struct ResolvedBalancer {
    pub name: String,
    pub vip: Ipv4,
    pub port: u16,
    pub backends: Vec<ResolvedBackend>,
    pub algorithm: LbAlgorithm,
    pub affinity: SessionAffinity,
    pub protocol: LbProtocol,
}

/// The affinity timeout in whole seconds, or 0 without affinity.
pub open spec fn timeout_secs(a: SessionAffinity) -> nat {
    match a {
        SessionAffinity::ClientIp { timeout } => timeout.spec_nanos() / 1_000_000_000,
        SessionAffinity::NoAffinity => 0,
    }
}

impl ResolvedBalancer {
    /// Whether session affinity is on.
    pub fn has_affinity(&self) -> (b: bool)
        ensures
            b == (self.affinity is ClientIp),
    {
        match self.affinity {
            SessionAffinity::ClientIp { .. } => true,
            SessionAffinity::NoAffinity => false,
        }
    }

    /// The affinity timeout in seconds, or 0 without affinity.
    pub fn affinity_timeout_secs(&self) -> (s: u64)
        ensures
            s == timeout_secs(self.affinity),
    {
        match self.affinity {
            SessionAffinity::ClientIp { timeout } => timeout.as_secs(),
            SessionAffinity::NoAffinity => 0,
        }
    }
}

/// The affinity map of a balancer, when it has affinity.
pub open spec fn affinity_map_text(b: ResolvedBalancer) -> Seq<char> {
    if b.affinity is ClientIp {
        "    map "@ + b.name@ + "_affinity {\n"@ + "        type ipv4_addr : ipv4_addr . inet_service\n"@
            + "        flags dynamic,timeout\n"@ + "        timeout "@ + decimal(timeout_secs(b.affinity))
            + "s\n"@ + "    }\n"@
    } else {
        Seq::empty()
    }
}

/// The affinity maps of the balancers, in order.
pub open spec fn maps_text(bs: Seq<ResolvedBalancer>) -> Seq<char>
    decreases bs.len(),
{
    if bs.len() == 0 {
        Seq::empty()
    } else {
        maps_text(bs.drop_last()) + affinity_map_text(bs.last())
    }
}

/// The port match of a balancer's protocol.
pub open spec fn port_match_text(b: ResolvedBalancer) -> Seq<char> {
    (match b.protocol {
        LbProtocol::Tcp => "tcp dport "@,
        LbProtocol::Udp => "udp dport "@,
        LbProtocol::Both => "th dport "@,
    }) + decimal(b.port as nat)
}

/// The prerouting rule that sends a balancer's traffic to its chain.
pub open spec fn jump_text(b: ResolvedBalancer) -> Seq<char> {
    "        ip daddr "@ + ip_text(b.vip) + " "@ + port_match_text(b) + " goto "@ + b.name@ + "\n"@
}

/// The prerouting rules of the balancers, in order.
pub open spec fn jumps_text(bs: Seq<ResolvedBalancer>) -> Seq<char>
    decreases bs.len(),
{
    if bs.len() == 0 {
        Seq::empty()
    } else {
        jumps_text(bs.drop_last()) + jump_text(bs.last())
    }
}

/// The map element of the backend at `index` of `count`.
pub open spec fn backend_line(index: nat, count: nat, be: ResolvedBackend) -> Seq<char> {
    "            "@ + decimal(index) + " : "@ + ip_text(be.ip) + " . "@ + decimal(be.port as nat) + (if index + 1 < count {
        ","@
    } else {
        Seq::empty()
    }) + "\n"@
}

/// The map elements of the first backends of `count`.
pub open spec fn backend_lines(bes: Seq<ResolvedBackend>, count: nat) -> Seq<char>
    decreases bes.len(),
{
    if bes.len() == 0 {
        Seq::empty()
    } else {
        backend_lines(bes.drop_last(), count) + backend_line((bes.len() - 1) as nat, count, bes.last())
    }
}

/// The start of a balancer's chain, with the affinity lookup when on.
pub open spec fn chain_head(b: ResolvedBalancer) -> Seq<char> {
    "    chain "@ + b.name@ + " {\n"@ + (if b.affinity is ClientIp {
        "        ip saddr @"@ + b.name@ + "_affinity dnat to ip saddr map @"@ + b.name@ + "_affinity\n"@
    } else {
        Seq::empty()
    })
}

/// The DNAT map of a balancer over its backends.
pub open spec fn chain_dnat(b: ResolvedBalancer) -> Seq<char> {
    "        dnat to "@ + (match b.algorithm {
        LbAlgorithm::RoundRobin => "numgen inc"@,
        LbAlgorithm::Random => "numgen random"@,
    }) + " mod "@ + decimal(b.backends@.len()) + " map {\n"@ + backend_lines(b.backends@, b.backends@.len())
        + "        }\n"@
}

/// The end of a balancer's chain, with the affinity update when on.
pub open spec fn chain_tail(b: ResolvedBalancer) -> Seq<char> {
    (if b.affinity is ClientIp {
        "        update @"@ + b.name@ + "_affinity { ip saddr timeout "@ + decimal(timeout_secs(b.affinity))
            + "s : ip daddr . th dport }\n"@
    } else {
        Seq::empty()
    }) + "    }\n"@
}

/// The chain of one balancer: the affinity lookup, the DNAT map over its
/// backends, and the affinity update.
pub open spec fn chain_text(b: ResolvedBalancer) -> Seq<char> {
    chain_head(b) + chain_dnat(b) + chain_tail(b)
}

/// The chains of the balancers, in order.
pub open spec fn chains_text(bs: Seq<ResolvedBalancer>) -> Seq<char>
    decreases bs.len(),
{
    if bs.len() == 0 {
        Seq::empty()
    } else {
        chains_text(bs.drop_last()) + chain_text(bs.last())
    }
}

/// The nftables ruleset of a router's balancers: `table ip lb` with the
/// affinity maps, a prerouting chain at `dstnat - 5` that jumps to each
/// balancer's chain, and the chains.
pub open spec fn lb_rules_text(bs: Seq<ResolvedBalancer>) -> Seq<char> {
    "table ip lb {\n"@ + maps_text(bs) + "    chain prerouting {\n"@
        + "        type nat hook prerouting priority dstnat - 5; policy accept;\n"@ + jumps_text(bs)
        + "    }\n"@ + chains_text(bs) + "}\n"@
}

fn push_affinity_map(v: &mut Vec<char>, b: &ResolvedBalancer)
    ensures
        final(v)@ == old(v)@ + affinity_map_text(*b),
{
    if b.has_affinity() {
        push_str(v, "    map ");
        push_str(v, b.name.as_str());
        push_str(v, "_affinity {\n");
        push_str(v, "        type ipv4_addr : ipv4_addr . inet_service\n");
        push_str(v, "        flags dynamic,timeout\n");
        push_str(v, "        timeout ");
        push_decimal(v, b.affinity_timeout_secs());
        push_str(v, "s\n");
        push_str(v, "    }\n");
    } else {
        proof {
            assert(old(v)@ + affinity_map_text(*b) =~= old(v)@);
        }
    }
}

fn push_jump(v: &mut Vec<char>, b: &ResolvedBalancer)
    ensures
        final(v)@ == old(v)@ + jump_text(*b),
{
    push_str(v, "        ip daddr ");
    push_ip(v, b.vip);
    push_str(v, " ");
    match b.protocol {
        LbProtocol::Tcp => push_str(v, "tcp dport "),
        LbProtocol::Udp => push_str(v, "udp dport "),
        LbProtocol::Both => push_str(v, "th dport "),
    }
    push_decimal(v, b.port as u64);
    push_str(v, " goto ");
    push_str(v, b.name.as_str());
    push_str(v, "\n");
}

#[verifier::rlimit(40)]
fn push_backend_lines(v: &mut Vec<char>, bes: &Vec<ResolvedBackend>)
    ensures
        final(v)@ == old(v)@ + backend_lines(bes@, bes@.len()),
{
    let ghost start = v@;
    let n = bes.len();
    let mut i: usize = 0;
    while i < n
        invariant
            i <= n,
            n == bes@.len(),
            v@ == start + backend_lines(bes@.take(i as int), n as nat),
        decreases n - i,
    {
        proof {
            assert(bes@.take(i + 1).drop_last() =~= bes@.take(i as int));
        }
        push_str(v, "            ");
        push_decimal(v, i as u64);
        push_str(v, " : ");
        push_ip(v, bes[i].ip);
        push_str(v, " . ");
        push_decimal(v, bes[i].port as u64);
        if i + 1 < n {
            push_str(v, ",");
        }
        push_str(v, "\n");
        proof {
            assert(v@ =~= start + backend_lines(bes@.take(i + 1), n as nat));
        }
        i = i + 1;
    }
    proof {
        assert(bes@.take(n as int) =~= bes@);
    }
}

fn push_chain_head(v: &mut Vec<char>, b: &ResolvedBalancer)
    ensures
        final(v)@ == old(v)@ + chain_head(*b),
{
    let ghost start = v@;
    push_str(v, "    chain ");
    push_str(v, b.name.as_str());
    push_str(v, " {\n");
    if b.has_affinity() {
        push_str(v, "        ip saddr @");
        push_str(v, b.name.as_str());
        push_str(v, "_affinity dnat to ip saddr map @");
        push_str(v, b.name.as_str());
        push_str(v, "_affinity\n");
    }
    proof {
        assert(v@ =~= start + chain_head(*b));
    }
}

fn push_chain_dnat(v: &mut Vec<char>, b: &ResolvedBalancer)
    ensures
        final(v)@ == old(v)@ + chain_dnat(*b),
{
    let ghost start = v@;
    push_str(v, "        dnat to ");
    match b.algorithm {
        LbAlgorithm::RoundRobin => push_str(v, "numgen inc"),
        LbAlgorithm::Random => push_str(v, "numgen random"),
    }
    push_str(v, " mod ");
    push_decimal(v, b.backends.len() as u64);
    push_str(v, " map {\n");
    push_backend_lines(v, &b.backends);
    push_str(v, "        }\n");
    proof {
        assert(v@ =~= start + chain_dnat(*b));
    }
}

fn push_chain_tail(v: &mut Vec<char>, b: &ResolvedBalancer)
    ensures
        final(v)@ == old(v)@ + chain_tail(*b),
{
    let ghost start = v@;
    if b.has_affinity() {
        push_str(v, "        update @");
        push_str(v, b.name.as_str());
        push_str(v, "_affinity { ip saddr timeout ");
        push_decimal(v, b.affinity_timeout_secs());
        push_str(v, "s : ip daddr . th dport }\n");
    }
    push_str(v, "    }\n");
    proof {
        assert(v@ =~= start + chain_tail(*b));
    }
}

fn push_chain(v: &mut Vec<char>, b: &ResolvedBalancer)
    ensures
        final(v)@ == old(v)@ + chain_text(*b),
{
    let ghost start = v@;
    push_chain_head(v, b);
    push_chain_dnat(v, b);
    push_chain_tail(v, b);
    proof {
        assert(v@ =~= start + chain_text(*b));
    }
}

/// The nftables ruleset for the balancers `balancers` of one router.
pub fn generate_lb_rules(balancers: &Vec<ResolvedBalancer>) -> (r: String)
    ensures
        r@ == lb_rules_text(balancers@),
{
    let mut v: Vec<char> = Vec::new();
    push_str(&mut v, "table ip lb {\n");
    let ghost s0 = v@;
    let mut i: usize = 0;
    while i < balancers.len()
        invariant
            i <= balancers.len(),
            v@ == s0 + maps_text(balancers@.take(i as int)),
        decreases balancers.len() - i,
    {
        proof {
            assert(balancers@.take(i + 1).drop_last() =~= balancers@.take(i as int));
        }
        push_affinity_map(&mut v, &balancers[i]);
        proof {
            assert(v@ =~= s0 + maps_text(balancers@.take(i + 1)));
        }
        i = i + 1;
    }
    proof {
        assert(balancers@.take(balancers.len() as int) =~= balancers@);
    }
    push_str(&mut v, "    chain prerouting {\n");
    push_str(&mut v, "        type nat hook prerouting priority dstnat - 5; policy accept;\n");
    let ghost s1 = v@;
    let mut i: usize = 0;
    while i < balancers.len()
        invariant
            i <= balancers.len(),
            v@ == s1 + jumps_text(balancers@.take(i as int)),
        decreases balancers.len() - i,
    {
        proof {
            assert(balancers@.take(i + 1).drop_last() =~= balancers@.take(i as int));
        }
        push_jump(&mut v, &balancers[i]);
        proof {
            assert(v@ =~= s1 + jumps_text(balancers@.take(i + 1)));
        }
        i = i + 1;
    }
    push_str(&mut v, "    }\n");
    let ghost s2 = v@;
    let mut i: usize = 0;
    while i < balancers.len()
        invariant
            i <= balancers.len(),
            v@ == s2 + chains_text(balancers@.take(i as int)),
        decreases balancers.len() - i,
    {
        proof {
            assert(balancers@.take(i + 1).drop_last() =~= balancers@.take(i as int));
        }
        push_chain(&mut v, &balancers[i]);
        proof {
            assert(v@ =~= s2 + chains_text(balancers@.take(i + 1)));
        }
        i = i + 1;
    }
    push_str(&mut v, "}\n");
    proof {
        assert(v@ =~= lb_rules_text(balancers@));
    }
    into_string(v)
}


/// A device of the topology as the balancer sees it: its id, its name and
/// the IPv4 address of its default interface, if it has one.
#[derive(Debug)]
pub struct DeviceAddr {
    pub id: NodeId,
    pub name: String,
    pub ip: Option<Ipv4>,
}

/// The index of the first device with `id`, if any.
pub open spec fn device_index(devs: Seq<DeviceAddr>, id: NodeId) -> Option<int>
    decreases devs.len(),
{
    if devs.len() == 0 {
        None
    } else {
        match device_index(devs.drop_last(), id) {
            Some(i) => Some(i),
            None => if devs.last().id == id {
                Some(devs.len() - 1)
            } else {
                None
            },
        }
    }
}

/// The error for a backend whose device is missing.
pub open spec fn missing_device_text(id: NodeId) -> Seq<char> {
    "backend device NodeId("@ + decimal(id.0 as nat) + ") not found"@
}

/// The error for a backend device without an IPv4 address.
pub open spec fn no_ipv4_text(name: Seq<char>) -> Seq<char> {
    "backend device '"@ + name + "' has no IPv4 address"@
}

/// The backends resolved against the devices, in order; the first backend
/// whose device is missing or has no address is an error.
pub open spec fn resolve_backends(devs: Seq<DeviceAddr>, bes: Seq<BalancerBackend>) -> Result<Seq<ResolvedBackend>, Seq<char>>
    decreases bes.len(),
{
    if bes.len() == 0 {
        Ok(Seq::empty())
    } else {
        match resolve_backends(devs, bes.drop_last()) {
            Err(e) => Err(e),
            Ok(rs) => {
                let be = bes.last();
                match device_index(devs, be.device) {
                    None => Err(missing_device_text(be.device)),
                    Some(i) => match devs[i].ip {
                        None => Err(no_ipv4_text(devs[i].name@)),
                        Some(ip) => Ok(rs.push(ResolvedBackend { ip, port: be.port })),
                    },
                }
            },
        }
    }
}

proof fn lemma_device_index(devs: Seq<DeviceAddr>, id: NodeId, k: int)
    requires
        0 <= k <= devs.len(),
        forall|j: int| 0 <= j < k ==> (#[trigger] devs[j]).id != id,
        k < devs.len() ==> devs[k].id == id,
    ensures
        device_index(devs, id) == (if k < devs.len() { Some(k) } else { None::<int> }),
    decreases devs.len(),
{
    if devs.len() > 0 {
        if k < devs.len() - 1 {
            lemma_device_index(devs.drop_last(), id, k);
        } else {
            lemma_device_index(devs.drop_last(), id, devs.len() - 1);
        }
    }
}

fn find_device(devs: &Vec<DeviceAddr>, id: NodeId) -> (r: Option<usize>)
    ensures
        match r {
            Some(i) => device_index(devs@, id) == Some(i as int) && i < devs@.len(),
            None => device_index(devs@, id) is None,
        },
{
    let mut k: usize = 0;
    while k < devs.len()
        invariant
            k <= devs.len(),
            forall|j: int| 0 <= j < k ==> (#[trigger] devs@[j]).id != id,
        decreases devs.len() - k,
    {
        if devs[k].id == id {
            proof {
                lemma_device_index(devs@, id, k as int);
            }
            return Some(k);
        }
        k = k + 1;
    }
    proof {
        lemma_device_index(devs@, id, devs@.len() as int);
    }
    None
}

/// Resolves `config` against the devices `devs`: each backend's device is
/// looked up by id and its default interface's address is taken.
pub fn resolve_balancer(devs: &Vec<DeviceAddr>, config: &BalancerConfig) -> (r: Result<ResolvedBalancer, String>)
    ensures
        match resolve_backends(devs@, config.backends@) {
            Ok(rs) => r matches Ok(b) && b.backends@ == rs && b.name@ == config.name@ && b.vip == config.vip
                && b.port == config.port && b.algorithm == config.algorithm && b.affinity == config.affinity
                && b.protocol == config.protocol,
            Err(e) => r matches Err(m) && m@ == e,
        },
{
    let mut out: Vec<ResolvedBackend> = Vec::new();
    let mut i: usize = 0;
    while i < config.backends.len()
        invariant
            i <= config.backends.len(),
            resolve_backends(devs@, config.backends@.take(i as int)) == Ok::<Seq<ResolvedBackend>, Seq<char>>(out@),
        decreases config.backends.len() - i,
    {
        proof {
            assert(config.backends@.take(i + 1).drop_last() =~= config.backends@.take(i as int));
        }
        let be = config.backends[i];
        let k = match find_device(devs, be.device) {
            Some(k) => k,
            None => {
                let mut v: Vec<char> = Vec::new();
                push_str(&mut v, "backend device NodeId(");
                push_decimal(&mut v, be.device.0);
                push_str(&mut v, ") not found");
                proof {
                    lemma_resolve_err_stays(devs@, config.backends@, i + 1, v@);
                }
                return Err(into_string(v));
            },
        };
        match devs[k].ip {
            Some(ip) => {
                out.push(ResolvedBackend { ip, port: be.port });
            },
            None => {
                let mut v: Vec<char> = Vec::new();
                push_str(&mut v, "backend device '");
                push_str(&mut v, devs[k].name.as_str());
                push_str(&mut v, "' has no IPv4 address");
                proof {
                    lemma_resolve_err_stays(devs@, config.backends@, i + 1, v@);
                }
                return Err(into_string(v));
            },
        }
        i = i + 1;
    }
    proof {
        assert(config.backends@.take(config.backends.len() as int) =~= config.backends@);
    }
    Ok(ResolvedBalancer {
        name: config.name.clone(),
        vip: config.vip,
        port: config.port,
        backends: out,
        algorithm: config.algorithm,
        affinity: config.affinity,
        protocol: config.protocol,
    })
}

proof fn lemma_resolve_err_stays(devs: Seq<DeviceAddr>, bes: Seq<BalancerBackend>, k: int, e: Seq<char>)
    requires
        0 <= k <= bes.len(),
        resolve_backends(devs, bes.take(k)) == Err::<Seq<ResolvedBackend>, Seq<char>>(e),
    ensures
        resolve_backends(devs, bes) == Err::<Seq<ResolvedBackend>, Seq<char>>(e),
    decreases bes.len(),
{
    if k == bes.len() {
        assert(bes.take(k) =~= bes);
    } else {
        assert(bes.drop_last().take(k) =~= bes.take(k));
        lemma_resolve_err_stays(devs, bes.drop_last(), k, e);
    }
}

/// Some balancer has a backend: only then are rules installed.
pub open spec fn any_backends(bs: Seq<ResolvedBalancer>) -> bool {
    exists|i: int| 0 <= i < bs.len() && (#[trigger] bs[i]).backends@.len() > 0
}

/// Whether some balancer has a backend.
pub fn has_backends(bs: &Vec<ResolvedBalancer>) -> (b: bool)
    ensures
        b == any_backends(bs@),
{
    let mut i: usize = 0;
    while i < bs.len()
        invariant
            i <= bs.len(),
            forall|j: int| 0 <= j < i ==> (#[trigger] bs@[j]).backends@.len() == 0,
        decreases bs.len() - i,
    {
        if bs[i].backends.len() > 0 {
            return true;
        }
        i = i + 1;
    }
    false
}

/// The balancers of one router, by name.
#[derive(Debug)]
pub struct RouterBalancers {
    pub balancers: Vec<BalancerConfig>,
}

/// The contents of a router's balancers.
pub open spec fn configs_view(bs: Seq<BalancerConfig>) -> Seq<BalancerView> {
    bs.map_values(|b: BalancerConfig| b@)
}

/// The index of the first balancer called `name`, if any.
pub open spec fn first_named(bs: Seq<BalancerView>, name: Seq<char>) -> Option<int>
    decreases bs.len(),
{
    if bs.len() == 0 {
        None
    } else {
        match first_named(bs.drop_last(), name) {
            Some(i) => Some(i),
            None => if bs.last().name == name {
                Some(bs.len() - 1)
            } else {
                None
            },
        }
    }
}

/// The index of the first backend on `device`, if any.
pub open spec fn first_on_device(bes: Seq<BalancerBackend>, device: NodeId) -> Option<int>
    decreases bes.len(),
{
    if bes.len() == 0 {
        None
    } else {
        match first_on_device(bes.drop_last(), device) {
            Some(i) => Some(i),
            None => if bes.last().device == device {
                Some(bes.len() - 1)
            } else {
                None
            },
        }
    }
}

/// No two balancers share a name.
pub open spec fn names_unique(bs: Seq<BalancerView>) -> bool {
    forall|i: int, j: int| 0 <= i < j < bs.len() ==> (#[trigger] bs[i]).name != (#[trigger] bs[j]).name
}

/// `first_named` is the first index with the name.
pub proof fn lemma_first_named(bs: Seq<BalancerView>, name: Seq<char>, k: int)
    requires
        0 <= k <= bs.len(),
        forall|j: int| 0 <= j < k ==> (#[trigger] bs[j]).name != name,
        k < bs.len() ==> bs[k].name == name,
    ensures
        first_named(bs, name) == (if k < bs.len() { Some(k) } else { None::<int> }),
    decreases bs.len(),
{
    if bs.len() > 0 {
        if k < bs.len() - 1 {
            lemma_first_named(bs.drop_last(), name, k);
        } else {
            lemma_first_named(bs.drop_last(), name, bs.len() - 1);
        }
    }
}

/// `first_on_device` is the first index with the device.
pub proof fn lemma_first_on_device(bes: Seq<BalancerBackend>, device: NodeId, k: int)
    requires
        0 <= k <= bes.len(),
        forall|j: int| 0 <= j < k ==> (#[trigger] bes[j]).device != device,
        k < bes.len() ==> bes[k].device == device,
    ensures
        first_on_device(bes, device) == (if k < bes.len() { Some(k) } else { None::<int> }),
    decreases bes.len(),
{
    if bes.len() > 0 {
        if k < bes.len() - 1 {
            lemma_first_on_device(bes.drop_last(), device, k);
        } else {
            lemma_first_on_device(bes.drop_last(), device, bes.len() - 1);
        }
    }
}

/// The error for a balancer name that is taken.
pub open spec fn exists_text(name: Seq<char>) -> Seq<char> {
    "balancer '"@ + name + "' already exists on this router"@
}

/// The error for a balancer name that is not there.
pub open spec fn not_found_text(name: Seq<char>) -> Seq<char> {
    "balancer '"@ + name + "' not found"@
}

/// The error for a backend device that the balancer does not have.
pub open spec fn backend_not_found_text(device: NodeId) -> Seq<char> {
    "backend device NodeId("@ + decimal(device.0 as nat) + ") not found in balancer"@
}

/// A balancer with one more backend.
pub open spec fn with_backend(b: BalancerView, be: BalancerBackend) -> BalancerView {
    BalancerView { backends: b.backends.push(be), ..b }
}

/// A balancer without its backend at `k`.
pub open spec fn without_backend(b: BalancerView, k: int) -> BalancerView {
    BalancerView { backends: b.backends.remove(k), ..b }
}

impl RouterBalancers {
    /// A router without balancers.
    pub fn new() -> (r: Self)
        ensures
            configs_view(r.balancers@) == Seq::<BalancerView>::empty(),
    {
        let r = RouterBalancers { balancers: Vec::new() };
        proof {
            assert(configs_view(r.balancers@) =~= Seq::<BalancerView>::empty());
        }
        r
    }

    fn find(&self, name: &str) -> (r: Option<usize>)
        ensures
            match r {
                Some(i) => i < self.balancers@.len() && first_named(configs_view(self.balancers@), name@) == Some(i as int),
                None => first_named(configs_view(self.balancers@), name@) is None,
            },
    {
        let ghost bs = configs_view(self.balancers@);
        let n = name.to_owned();
        let mut i: usize = 0;
        while i < self.balancers.len()
            invariant
                i <= self.balancers.len(),
                n@ == name@,
                bs == configs_view(self.balancers@),
                forall|j: int| 0 <= j < i ==> (#[trigger] bs[j]).name != name@,
            decreases self.balancers.len() - i,
        {
            if self.balancers[i].name == n {
                proof {
                    lemma_first_named(bs, name@, i as int);
                }
                return Some(i);
            }
            i = i + 1;
        }
        proof {
            lemma_first_named(bs, name@, bs.len() as int);
        }
        None
    }

    /// Adds a balancer; a balancer of the same name is an error and changes
    /// nothing.
    pub fn add_balancer(&mut self, config: BalancerConfig) -> (r: Result<(), String>)
        ensures
            match first_named(configs_view(old(self).balancers@), config.name@) {
                Some(_) => r matches Err(m) && m@ == exists_text(config.name@)
                    && configs_view(final(self).balancers@) == configs_view(old(self).balancers@),
                None => r is Ok && configs_view(final(self).balancers@) == configs_view(old(self).balancers@).push(config@),
            },
    {
        match self.find(config.name.as_str()) {
            Some(_) => {
                let mut v: Vec<char> = Vec::new();
                push_str(&mut v, "balancer '");
                push_str(&mut v, config.name.as_str());
                push_str(&mut v, "' already exists on this router");
                Err(into_string(v))
            },
            None => {
                let ghost before = configs_view(self.balancers@);
                self.balancers.push(config);
                proof {
                    assert(configs_view(self.balancers@) =~= before.push(config@));
                }
                Ok(())
            },
        }
    }

    /// Removes the first balancer called `name` and gives back its VIP; a
    /// missing name is an error and changes nothing.
    pub fn remove_balancer(&mut self, name: &str) -> (r: Result<Ipv4, String>)
        ensures
            match first_named(configs_view(old(self).balancers@), name@) {
                Some(i) => r == Ok::<Ipv4, String>(configs_view(old(self).balancers@)[i].vip)
                    && configs_view(final(self).balancers@) == configs_view(old(self).balancers@).remove(i),
                None => r matches Err(m) && m@ == not_found_text(name@)
                    && configs_view(final(self).balancers@) == configs_view(old(self).balancers@),
            },
    {
        match self.find(name) {
            Some(i) => {
                let ghost before = configs_view(self.balancers@);
                let removed = self.balancers.remove(i);
                proof {
                    assert(configs_view(self.balancers@) =~= before.remove(i as int));
                }
                Ok(removed.vip)
            },
            None => {
                let mut v: Vec<char> = Vec::new();
                push_str(&mut v, "balancer '");
                push_str(&mut v, name);
                push_str(&mut v, "' not found");
                Err(into_string(v))
            },
        }
    }

    /// Adds the backend `device:port` to the first balancer called `balancer`;
    /// a missing balancer is an error and changes nothing.
    pub fn add_lb_backend(&mut self, balancer: &str, device: NodeId, port: u16) -> (r: Result<(), String>)
        ensures
            match first_named(configs_view(old(self).balancers@), balancer@) {
                Some(i) => r is Ok && configs_view(final(self).balancers@) == configs_view(old(self).balancers@).update(
                    i,
                    with_backend(configs_view(old(self).balancers@)[i], BalancerBackend { device, port }),
                ),
                None => r matches Err(m) && m@ == not_found_text(balancer@)
                    && configs_view(final(self).balancers@) == configs_view(old(self).balancers@),
            },
    {
        match self.find(balancer) {
            Some(i) => {
                let ghost before = configs_view(self.balancers@);
                self.balancers[i].backends.push(BalancerBackend { device, port });
                proof {
                    assert(configs_view(self.balancers@) =~= before.update(
                        i as int,
                        with_backend(before[i as int], BalancerBackend { device, port }),
                    ));
                }
                Ok(())
            },
            None => {
                let mut v: Vec<char> = Vec::new();
                push_str(&mut v, "balancer '");
                push_str(&mut v, balancer);
                push_str(&mut v, "' not found");
                Err(into_string(v))
            },
        }
    }

    /// Removes the first backend on `device` from the first balancer called
    /// `balancer`; a missing balancer or backend is an error and changes
    /// nothing.
    pub fn remove_lb_backend(&mut self, balancer: &str, device: NodeId) -> (r: Result<(), String>)
        ensures
            match first_named(configs_view(old(self).balancers@), balancer@) {
                Some(i) => match first_on_device(configs_view(old(self).balancers@)[i].backends, device) {
                    Some(k) => r is Ok && configs_view(final(self).balancers@) == configs_view(old(self).balancers@).update(
                        i,
                        without_backend(configs_view(old(self).balancers@)[i], k),
                    ),
                    None => r matches Err(m) && m@ == backend_not_found_text(device)
                        && configs_view(final(self).balancers@) == configs_view(old(self).balancers@),
                },
                None => r matches Err(m) && m@ == not_found_text(balancer@)
                    && configs_view(final(self).balancers@) == configs_view(old(self).balancers@),
            },
    {
        let i = match self.find(balancer) {
            Some(i) => i,
            None => {
                let mut v: Vec<char> = Vec::new();
                push_str(&mut v, "balancer '");
                push_str(&mut v, balancer);
                push_str(&mut v, "' not found");
                return Err(into_string(v));
            },
        };
        let ghost bes = self.balancers@[i as int].backends@;
        let mut k: usize = 0;
        while k < self.balancers[i].backends.len()
            invariant
                i < self.balancers@.len(),
                self.balancers@ == old(self).balancers@,
                bes == self.balancers@[i as int].backends@,
                k <= bes.len(),
                forall|j: int| 0 <= j < k ==> (#[trigger] bes[j]).device != device,
            ensures
                i < self.balancers@.len(),
                self.balancers@ == old(self).balancers@,
                k <= bes.len(),
                k < bes.len() ==> bes[k as int].device == device,
                forall|j: int| 0 <= j < k ==> (#[trigger] bes[j]).device != device,
            decreases bes.len() - k,
        {
            if self.balancers[i].backends[k].device == device {
                break;
            }
            k = k + 1;
        }
        proof {
            lemma_first_on_device(bes, device, k as int);
        }
        if k == self.balancers[i].backends.len() {
            let mut v: Vec<char> = Vec::new();
            push_str(&mut v, "backend device NodeId(");
            push_decimal(&mut v, device.0);
            push_str(&mut v, ") not found in balancer");
            return Err(into_string(v));
        }
        let ghost before = configs_view(self.balancers@);
        self.balancers[i].backends.remove(k);
        proof {
            assert(configs_view(self.balancers@) =~= before.update(
                i as int,
                without_backend(before[i as int], k as int),
            ));
        }
        Ok(())
    }

    /// Whether some balancer still uses `vip`.
    pub fn vip_in_use(&self, vip: Ipv4) -> (b: bool)
        ensures
            b == exists|i: int| 0 <= i < self.balancers@.len() && (#[trigger] self.balancers@[i]).vip == vip,
    {
        let mut i: usize = 0;
        while i < self.balancers.len()
            invariant
                i <= self.balancers.len(),
                forall|j: int| 0 <= j < i ==> (#[trigger] self.balancers@[j]).vip != vip,
            decreases self.balancers.len() - i,
        {
            if self.balancers[i].vip == vip {
                return true;
            }
            i = i + 1;
        }
        false
    }
}

proof fn lemma_jump_in_jumps(bs: Seq<ResolvedBalancer>, k: int)
    requires
        0 <= k < bs.len(),
    ensures
        occurs_at(jumps_text(bs), jump_text(bs[k]), jumps_text(bs.take(k)).len() as int),
    decreases bs.len(),
{
    let p = jumps_text(bs.take(k)).len() as int;
    let j = jump_text(bs[k]);
    if k == bs.len() - 1 {
        assert(bs.take(k) =~= bs.drop_last());
        assert(jumps_text(bs).subrange(p, p + j.len()) =~= j);
    } else {
        lemma_jump_in_jumps(bs.drop_last(), k);
        assert(bs.drop_last().take(k) =~= bs.take(k));
        assert(bs.drop_last()[k] == bs[k]);
        let prev = jumps_text(bs.drop_last());
        assert(jumps_text(bs) == prev + jump_text(bs.last()));
        assert(jumps_text(bs).subrange(p, p + j.len()) =~= prev.subrange(p, p + j.len()));
    }
}

/// Traffic addressed to a balancer is sent to its chain: for every balancer,
/// the ruleset holds the prerouting rule that matches packets whose
/// destination is the balancer's VIP and port, `ip daddr <vip> <proto> dport
/// <port> goto <name>`.
pub proof fn law_vip_traffic_goes_to_its_chain(bs: Seq<ResolvedBalancer>, k: int)
    requires
        0 <= k < bs.len(),
    ensures
        contains(
            lb_rules_text(bs),
            "        ip daddr "@ + ip_text(bs[k].vip) + " "@ + (match bs[k].protocol {
                LbProtocol::Tcp => "tcp"@,
                LbProtocol::Udp => "udp"@,
                LbProtocol::Both => "th"@,
            }) + " dport "@ + decimal(bs[k].port as nat) + " goto "@ + bs[k].name@ + "\n"@,
        ),
{
    reveal_strlit("tcp dport ");
    reveal_strlit("udp dport ");
    reveal_strlit("th dport ");
    reveal_strlit("tcp");
    reveal_strlit("udp");
    reveal_strlit("th");
    reveal_strlit(" dport ");
    let b = bs[k];
    let words: Seq<char> = match b.protocol {
        LbProtocol::Tcp => "tcp"@,
        LbProtocol::Udp => "udp"@,
        LbProtocol::Both => "th"@,
    };
    assert(port_match_text(b) =~= words + " dport "@ + decimal(b.port as nat));
    let line = "        ip daddr "@ + ip_text(b.vip) + " "@ + words + " dport "@ + decimal(b.port as nat) + " goto "@ + b.name@ + "\n"@;
    assert(line =~= jump_text(b));
    lemma_jump_in_jumps(bs, k);
    let head = "table ip lb {\n"@ + maps_text(bs) + "    chain prerouting {\n"@
        + "        type nat hook prerouting priority dstnat - 5; policy accept;\n"@;
    let tail = "    }\n"@ + chains_text(bs) + "}\n"@;
    let all = lb_rules_text(bs);
    assert(all =~= head + jumps_text(bs) + tail);
    let p = jumps_text(bs.take(k)).len() as int;
    let q = head.len() + p;
    assert(all.subrange(q, q + line.len()) =~= jumps_text(bs).subrange(p, p + line.len()));
    assert(occurs_at(all, line, q));
}

proof fn lemma_occurs_within(a: Seq<char>, b: Seq<char>, c: Seq<char>, pat: Seq<char>, i: int)
    requires
        occurs_at(b, pat, i),
    ensures
        occurs_at(a + b + c, pat, a.len() + i),
{
    let q = a.len() + i;
    assert((a + b + c).subrange(q, q + pat.len()) =~= b.subrange(i, i + pat.len()));
}

proof fn lemma_chain_in_chains(bs: Seq<ResolvedBalancer>, k: int)
    requires
        0 <= k < bs.len(),
    ensures
        occurs_at(chains_text(bs), chain_text(bs[k]), chains_text(bs.take(k)).len() as int),
    decreases bs.len(),
{
    let p = chains_text(bs.take(k)).len() as int;
    let j = chain_text(bs[k]);
    if k == bs.len() - 1 {
        assert(bs.take(k) =~= bs.drop_last());
        assert(chains_text(bs).subrange(p, p + j.len()) =~= j);
    } else {
        lemma_chain_in_chains(bs.drop_last(), k);
        assert(bs.drop_last().take(k) =~= bs.take(k));
        assert(bs.drop_last()[k] == bs[k]);
        let prev = chains_text(bs.drop_last());
        assert(chains_text(bs) == prev + chain_text(bs.last()));
        assert(chains_text(bs).subrange(p, p + j.len()) =~= prev.subrange(p, p + j.len()));
    }
}

proof fn lemma_backend_in_lines(bes: Seq<ResolvedBackend>, count: nat, i: int)
    requires
        0 <= i < bes.len(),
    ensures
        occurs_at(backend_lines(bes, count), backend_line(i as nat, count, bes[i]), backend_lines(bes.take(i), count).len() as int),
    decreases bes.len(),
{
    let p = backend_lines(bes.take(i), count).len() as int;
    let j = backend_line(i as nat, count, bes[i]);
    if i == bes.len() - 1 {
        assert(bes.take(i) =~= bes.drop_last());
        assert(backend_lines(bes, count).subrange(p, p + j.len()) =~= j);
    } else {
        lemma_backend_in_lines(bes.drop_last(), count, i);
        assert(bes.drop_last().take(i) =~= bes.take(i));
        assert(bes.drop_last()[i] == bes[i]);
        let prev = backend_lines(bes.drop_last(), count);
        assert(backend_lines(bes, count) == prev + backend_line((bes.len() - 1) as nat, count, bes.last()));
        assert(backend_lines(bes, count).subrange(p, p + j.len()) =~= prev.subrange(p, p + j.len()));
    }
}

proof fn lemma_chain_in_rules(bs: Seq<ResolvedBalancer>, k: int) -> (q: int)
    requires
        0 <= k < bs.len(),
    ensures
        occurs_at(lb_rules_text(bs), chain_text(bs[k]), q),
{
    lemma_chain_in_chains(bs, k);
    let head = "table ip lb {\n"@ + maps_text(bs) + "    chain prerouting {\n"@
        + "        type nat hook prerouting priority dstnat - 5; policy accept;\n"@ + jumps_text(bs) + "    }\n"@;
    assert(lb_rules_text(bs) =~= head + chains_text(bs) + "}\n"@);
    lemma_occurs_within(head, chains_text(bs), "}\n"@, chain_text(bs[k]), chains_text(bs.take(k)).len() as int);
    (head.len() + chains_text(bs.take(k)).len()) as int
}

proof fn lemma_occurs_nested(all: Seq<char>, mid: Seq<char>, x: Seq<char>, q: int, off: int)
    requires
        occurs_at(all, mid, q),
        occurs_at(mid, x, off),
    ensures
        occurs_at(all, x, q + off),
{
    assert(all.subrange(q, q + mid.len()) == mid);
    assert(all.subrange(q + off, q + off + x.len()) =~= mid.subrange(off, off + x.len()));
}

proof fn lemma_occurs_prefix(all: Seq<char>, x: Seq<char>, pat: Seq<char>, q: int)
    requires
        occurs_at(all, x, q),
        pat.len() <= x.len(),
        x.take(pat.len() as int) == pat,
    ensures
        occurs_at(all, pat, q),
{
    assert(all.subrange(q, q + x.len()) == x);
    assert(all.subrange(q, q + pat.len()) =~= x.take(pat.len() as int));
}

/// The DNAT line of a balancer's chain, written out.
spec fn dnat_line(b: ResolvedBalancer) -> Seq<char> {
    "        dnat to "@ + (match b.algorithm {
        LbAlgorithm::RoundRobin => "numgen inc"@,
        LbAlgorithm::Random => "numgen random"@,
    }) + " mod "@ + decimal(b.backends@.len()) + " map {\n"@
}

/// The start of the map element of a backend, written out.
spec fn element_text(i: nat, be: ResolvedBackend) -> Seq<char> {
    "            "@ + decimal(i) + " : "@ + ip_text(be.ip) + " . "@ + decimal(be.port as nat)
}

proof fn lemma_dnat_in_chain(b: ResolvedBalancer)
    ensures
        occurs_at(chain_text(b), dnat_line(b), chain_head(b).len() as int),
{
    let dnat = dnat_line(b);
    let lines = backend_lines(b.backends@, b.backends@.len());
    let rest = "        }\n"@ + chain_tail(b);
    assert(chain_dnat(b) =~= dnat + lines + "        }\n"@);
    assert(chain_text(b) =~= chain_head(b) + dnat + (lines + rest));
    assert(occurs_at(dnat, dnat, 0)) by {
        assert(dnat.subrange(0, dnat.len() as int) =~= dnat);
    }
    lemma_occurs_within(chain_head(b), dnat, lines + rest, dnat, 0);
}

proof fn lemma_element_in_chain(b: ResolvedBalancer, i: int) -> (off: int)
    requires
        0 <= i < b.backends@.len(),
    ensures
        occurs_at(chain_text(b), element_text(i as nat, b.backends@[i]), off),
{
    let n = b.backends@.len();
    let dnat = dnat_line(b);
    let lines = backend_lines(b.backends@, n);
    let rest = "        }\n"@ + chain_tail(b);
    assert(chain_dnat(b) =~= dnat + lines + "        }\n"@);
    assert(chain_text(b) =~= (chain_head(b) + dnat) + lines + rest);
    lemma_backend_in_lines(b.backends@, n, i);
    let line = backend_line(i as nat, n, b.backends@[i]);
    let pat = element_text(i as nat, b.backends@[i]);
    assert(line.take(pat.len() as int) =~= pat);
    let p = backend_lines(b.backends@.take(i), n).len() as int;
    lemma_occurs_within(chain_head(b) + dnat, lines, rest, line, p);
    let off = (chain_head(b) + dnat).len() + p;
    lemma_occurs_prefix(chain_text(b), line, pat, off);
    off
}

/// Each balancer's chain spreads its traffic over all its backends with the
/// algorithm asked for: the ruleset holds `dnat to numgen inc mod <n> map`
/// for round robin and `dnat to numgen random mod <n> map` for random, with
/// `n` the number of backends, and an element `<i> : <ip> . <port>` for the
/// `i`-th backend.
pub proof fn law_chain_spreads_over_backends(bs: Seq<ResolvedBalancer>, k: int, i: int)
    requires
        0 <= k < bs.len(),
        0 <= i < bs[k].backends@.len(),
    ensures
        contains(
            lb_rules_text(bs),
            "        dnat to "@ + (match bs[k].algorithm {
                LbAlgorithm::RoundRobin => "numgen inc"@,
                LbAlgorithm::Random => "numgen random"@,
            }) + " mod "@ + decimal(bs[k].backends@.len()) + " map {\n"@,
        ),
        contains(
            lb_rules_text(bs),
            "            "@ + decimal(i as nat) + " : "@ + ip_text(bs[k].backends@[i].ip) + " . "@ + decimal(
                bs[k].backends@[i].port as nat,
            ),
        ),
{
    let b = bs[k];
    let q = lemma_chain_in_rules(bs, k);
    let all = lb_rules_text(bs);
    lemma_dnat_in_chain(b);
    lemma_occurs_nested(all, chain_text(b), dnat_line(b), q, chain_head(b).len() as int);
    assert(occurs_at(all, dnat_line(b), q + chain_head(b).len()));
    let off = lemma_element_in_chain(b, i);
    lemma_occurs_nested(all, chain_text(b), element_text(i as nat, b.backends@[i]), q, off);
    assert(occurs_at(all, element_text(i as nat, b.backends@[i]), q + off));
}

/// Removing a balancer by its name undoes adding it: adding `c` to
/// balancers that have no balancer of its name, then removing that name,
/// gives back the balancers and `c`'s VIP.
pub proof fn law_remove_balancer_undoes_add(bs: Seq<BalancerView>, c: BalancerView)
    requires
        first_named(bs, c.name) is None,
    ensures
        first_named(bs.push(c), c.name) == Some(bs.len() as int),
        bs.push(c).remove(bs.len() as int) == bs,
        bs.push(c)[bs.len() as int].vip == c.vip,
{
    assert forall|j: int| 0 <= j < bs.len() implies (#[trigger] bs.push(c)[j]).name != c.name by {
        if bs[j].name == c.name {
            assert forall|jj: int| 0 <= jj < j implies #[trigger] bs[jj].name != c.name by {
                if bs[jj].name == c.name {
                    lemma_first_named_some(bs, c.name, jj);
                }
            }
            lemma_first_named(bs, c.name, j);
        }
    }
    lemma_first_named(bs.push(c), c.name, bs.len() as int);
    assert(bs.push(c).remove(bs.len() as int) =~= bs);
}

proof fn lemma_first_named_some(bs: Seq<BalancerView>, name: Seq<char>, j: int)
    requires
        0 <= j < bs.len(),
        bs[j].name == name,
    ensures
        first_named(bs, name) is Some,
    decreases bs.len(),
{
    if j < bs.len() - 1 {
        lemma_first_named_some(bs.drop_last(), name, j);
    }
}

/// Adding a balancer whose name is not taken keeps the names unique.
pub proof fn law_add_balancer_keeps_names_unique(bs: Seq<BalancerView>, c: BalancerView)
    requires
        names_unique(bs),
        first_named(bs, c.name) is None,
    ensures
        names_unique(bs.push(c)),
{
    assert forall|i: int, j: int| 0 <= i < j < bs.push(c).len() implies (#[trigger] bs.push(c)[i]).name
        != (#[trigger] bs.push(c)[j]).name by {
        if j == bs.len() && bs[i].name == c.name {
            lemma_first_named_some(bs, c.name, i);
        }
    }
}

/// Removing a backend by its device undoes adding it, when the balancer had
/// no backend on that device.
pub proof fn law_remove_backend_undoes_add(b: BalancerView, be: BalancerBackend)
    requires
        first_on_device(b.backends, be.device) is None,
    ensures
        first_on_device(with_backend(b, be).backends, be.device) == Some(b.backends.len() as int),
        without_backend(with_backend(b, be), b.backends.len() as int) == b,
{
    let bes = b.backends;
    assert forall|j: int| 0 <= j < bes.len() implies (#[trigger] bes.push(be)[j]).device != be.device by {
        if bes[j].device == be.device {
            lemma_first_on_device_some(bes, be.device, j);
        }
    }
    lemma_first_on_device(bes.push(be), be.device, bes.len() as int);
    assert(bes.push(be).remove(bes.len() as int) =~= bes);
}

proof fn lemma_first_on_device_some(bes: Seq<BalancerBackend>, device: NodeId, j: int)
    requires
        0 <= j < bes.len(),
        bes[j].device == device,
    ensures
        first_on_device(bes, device) is Some,
    decreases bes.len(),
{
    if j < bes.len() - 1 {
        lemma_first_on_device_some(bes.drop_last(), device, j);
    }
}

/// The `conntrack` arguments that flush a balancer's entries: one command
/// per protocol it matches.
pub open spec fn flush_commands(vip: Ipv4, port: u16, protocol: LbProtocol) -> Seq<Seq<Seq<char>>> {
    let cmd = |p: Seq<char>| seq!["-D"@, "-d"@, ip_text(vip), "-p"@, p, "--dport"@, decimal(port as nat)];
    match protocol {
        LbProtocol::Tcp => seq![cmd("tcp"@)],
        LbProtocol::Udp => seq![cmd("udp"@)],
        LbProtocol::Both => seq![cmd("tcp"@), cmd("udp"@)],
    }
}

fn flush_args(vip: Ipv4, port: u16, proto: &str) -> (r: Vec<String>)
    ensures
        strings_view(r@) == seq!["-D"@, "-d"@, ip_text(vip), "-p"@, proto@, "--dport"@, decimal(port as nat)],
{
    let mut out: Vec<String> = Vec::new();
    push_lit(&mut out, "-D");
    push_lit(&mut out, "-d");
    let mut v: Vec<char> = Vec::new();
    push_ip(&mut v, vip);
    let ip = into_string(v);
    push_string(&mut out, &ip);
    push_lit(&mut out, "-p");
    push_lit(&mut out, proto);
    push_lit(&mut out, "--dport");
    let p = crate::text::u64_to_string(port as u64);
    push_string(&mut out, &p);
    proof {
        assert(strings_view(out@) =~= seq!["-D"@, "-d"@, ip_text(vip), "-p"@, proto@, "--dport"@, decimal(port as nat)]);
    }
    out
}

/// The `conntrack` commands that flush the connections of a balancer on
/// `vip:port`, forcing them to be balanced again.
pub fn flush_lb_conntrack(vip: Ipv4, port: u16, protocol: LbProtocol) -> (r: Vec<Vec<String>>)
    ensures
        r@.map_values(|c: Vec<String>| strings_view(c@)) == flush_commands(vip, port, protocol),
{
    let mut out: Vec<Vec<String>> = Vec::new();
    match protocol {
        LbProtocol::Tcp => {
            out.push(flush_args(vip, port, "tcp"));
        },
        LbProtocol::Udp => {
            out.push(flush_args(vip, port, "udp"));
        },
        LbProtocol::Both => {
            out.push(flush_args(vip, port, "tcp"));
            out.push(flush_args(vip, port, "udp"));
        },
    }
    proof {
        assert(out@.map_values(|c: Vec<String>| strings_view(c@)) =~= flush_commands(vip, port, protocol));
    }
    out
}

} // verus!
