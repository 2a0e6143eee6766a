//! Firewall presets and configuration types.

use vstd::prelude::*;

verus! {

/// Custom firewall configuration for per-port allow/block rules.
#[derive(Debug)]
pub struct FirewallConfig {
    /// Allowed outbound TCP destination ports. Empty + block_tcp = block all TCP.
    pub allow_tcp: Vec<u16>,
    /// Allowed outbound UDP destination ports. Empty + block_udp = block all UDP.
    pub allow_udp: Vec<u16>,
    /// If true, block TCP not in `allow_tcp`.
    pub block_tcp: bool,
    /// If true, block UDP not in `allow_udp`.
    pub block_udp: bool,
}

/// The abstract content of a firewall configuration.
pub struct FirewallRules {
    pub allow_tcp: Seq<u16>,
    pub allow_udp: Seq<u16>,
    pub block_tcp: bool,
    pub block_udp: bool,
}

impl View for FirewallConfig {
    type V = FirewallRules;

    open spec fn view(&self) -> FirewallRules {
        FirewallRules {
            allow_tcp: self.allow_tcp@,
            allow_udp: self.allow_udp@,
            block_tcp: self.block_tcp,
            block_udp: self.block_udp,
        }
    }
}

impl Clone for FirewallConfig {
    fn clone(&self) -> (c: Self)
        ensures
            c@ == self@,
    {
        FirewallConfig {
            allow_tcp: self.allow_tcp.clone(),
            allow_udp: self.allow_udp.clone(),
            block_tcp: self.block_tcp,
            block_udp: self.block_udp,
        }
    }
}

impl Default for FirewallConfig {
    fn default() -> (c: Self)
        ensures
            c@.allow_tcp.len() == 0,
            c@.allow_udp.len() == 0,
            !c.block_tcp,
            !c.block_udp,
    {
        FirewallConfig { allow_tcp: Vec::new(), allow_udp: Vec::new(), block_tcp: false, block_udp: false }
    }
}

/// Firewall preset for a router's forward chain.
///
/// Rules are applied as nftables rules in a separate `inet fw` table and
/// apply to both IPv4 and IPv6 traffic.
#[derive(Debug)]
pub enum Firewall {
    /// No filtering beyond NAT (default).
    NoFilter,
    /// Block unsolicited inbound traffic on the WAN interface (RFC 6092).
    BlockInbound,
    /// Corporate/enterprise firewall: TCP 80, 443 and UDP 53 only.
    Corporate,
    /// Hotel/airport captive-portal style firewall: TCP 80, 443, 53 and UDP 53;
    /// other TCP allowed, other UDP blocked.
    CaptivePortal,
    /// Fully custom firewall configuration.
    Custom(FirewallConfig),
}

impl Default for Firewall {
    fn default() -> (f: Self)
        ensures
            f is NoFilter,
    {
        Firewall::NoFilter
    }
}

/// The configuration that a firewall preset expands to.
pub open spec fn preset_rules(f: Firewall) -> Option<FirewallRules> {
    match f {
        Firewall::NoFilter => None,
        Firewall::BlockInbound => None,
        Firewall::Corporate => Some(
            FirewallRules {
                allow_tcp: seq![80u16, 443u16],
                allow_udp: seq![53u16],
                block_tcp: true,
                block_udp: true,
            },
        ),
        Firewall::CaptivePortal => Some(
            FirewallRules {
                allow_tcp: seq![80u16, 443u16, 53u16],
                allow_udp: seq![53u16],
                block_tcp: false,
                block_udp: true,
            },
        ),
        Firewall::Custom(cfg) => Some(cfg@),
    }
}

impl Firewall {
    /// Expands a preset to a [`FirewallConfig`], or returns `None` for
    /// [`Firewall::NoFilter`] and [`Firewall::BlockInbound`].
    pub fn to_config(&self) -> (r: Option<FirewallConfig>)
        ensures
            match preset_rules(*self) {
                Some(rules) => r matches Some(c) && c@ == rules,
                None => r is None,
            },
    {
        match self {
            Firewall::NoFilter | Firewall::BlockInbound => None,
            Firewall::Corporate => {
                let c = FirewallConfig {
                    allow_tcp: vec![80, 443],
                    allow_udp: vec![53],
                    block_tcp: true,
                    block_udp: true,
                };
                proof {
                    assert(c.allow_tcp@ =~= seq![80u16, 443u16]);
                    assert(c.allow_udp@ =~= seq![53u16]);
                }
                Some(c)
            },
            Firewall::CaptivePortal => {
                let c = FirewallConfig {
                    allow_tcp: vec![80, 443, 53],
                    allow_udp: vec![53],
                    block_tcp: false,
                    block_udp: true,
                };
                proof {
                    assert(c.allow_tcp@ =~= seq![80u16, 443u16, 53u16]);
                    assert(c.allow_udp@ =~= seq![53u16]);
                }
                Some(c)
            },
            Firewall::Custom(cfg) => Some(cfg.clone()),
        }
    }
}

impl FirewallConfig {
    /// Returns a builder for constructing a custom firewall configuration.
    pub fn builder() -> (b: FirewallConfigBuilder)
        ensures
            b@.allow_tcp.len() == 0,
            b@.allow_udp.len() == 0,
            !b@.block_tcp,
            !b@.block_udp,
    {
        FirewallConfigBuilder { allow_tcp: Vec::new(), allow_udp: Vec::new(), block_tcp: false, block_udp: false }
    }
}

/// Builder for [`FirewallConfig`].
#[derive(Debug)]
pub struct FirewallConfigBuilder {
    allow_tcp: Vec<u16>,
    allow_udp: Vec<u16>,
    block_tcp: bool,
    block_udp: bool,
}

impl View for FirewallConfigBuilder {
    type V = FirewallRules;

    closed spec fn view(&self) -> FirewallRules {
        FirewallRules {
            allow_tcp: self.allow_tcp@,
            allow_udp: self.allow_udp@,
            block_tcp: self.block_tcp,
            block_udp: self.block_udp,
        }
    }
}

impl Default for FirewallConfigBuilder {
    fn default() -> (b: Self)
        ensures
            b@.allow_tcp.len() == 0,
            b@.allow_udp.len() == 0,
            !b@.block_tcp,
            !b@.block_udp,
    {
        FirewallConfig::builder()
    }
}

fn extend_ports(v: &mut Vec<u16>, ports: &[u16])
    ensures
        final(v)@ == old(v)@ + ports@,
{
    let ghost start = v@;
    let mut i: usize = 0;
    while i < ports.len()
        invariant
            i <= ports.len(),
            v@ == start + ports@.take(i as int),
        decreases ports.len() - i,
    {
        v.push(ports[i]);
        proof {
            assert(ports@.take(i + 1) =~= ports@.take(i as int).push(ports@[i as int]));
        }
        i = i + 1;
    }
    proof {
        assert(ports@.take(ports.len() as int) =~= ports@);
    }
}

impl FirewallConfigBuilder {
    /// Allow outbound TCP to these destination ports.
    pub fn allow_tcp(&mut self, ports: &[u16]) -> (r: &mut Self)
        ensures
            (*r)@ == (FirewallRules { allow_tcp: old(self)@.allow_tcp + ports@, ..old(self)@ }),
            *final(self) == *final(r),
    {
        extend_ports(&mut self.allow_tcp, ports);
        self
    }

    /// Allow outbound UDP to these destination ports.
    pub fn allow_udp(&mut self, ports: &[u16]) -> (r: &mut Self)
        ensures
            (*r)@ == (FirewallRules { allow_udp: old(self)@.allow_udp + ports@, ..old(self)@ }),
            *final(self) == *final(r),
    {
        extend_ports(&mut self.allow_udp, ports);
        self
    }

    /// Block all outbound TCP not in the allow list.
    pub fn block_tcp(&mut self) -> (r: &mut Self)
        ensures
            (*r)@ == (FirewallRules { block_tcp: true, ..old(self)@ }),
            *final(self) == *final(r),
    {
        self.block_tcp = true;
        self
    }

    /// Block all outbound UDP not in the allow list.
    pub fn block_udp(&mut self) -> (r: &mut Self)
        ensures
            (*r)@ == (FirewallRules { block_udp: true, ..old(self)@ }),
            *final(self) == *final(r),
    {
        self.block_udp = true;
        self
    }

    /// Builds the [`FirewallConfig`].
    pub fn build(&self) -> (c: FirewallConfig)
        ensures
            c@ == self@,
    {
        FirewallConfig {
            allow_tcp: self.allow_tcp.clone(),
            allow_udp: self.allow_udp.clone(),
            block_tcp: self.block_tcp,
            block_udp: self.block_udp,
        }
    }
}

} // verus!
