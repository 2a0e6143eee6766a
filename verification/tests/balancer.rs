use patchbay::balancer::{
    flush_lb_conntrack, generate_lb_rules, has_backends, resolve_balancer, BalancerConfig,
    DeviceAddr, Ipv4, LbAlgorithm, LbProtocol, NodeId, ResolvedBackend, ResolvedBalancer,
    RouterBalancers, SessionAffinity,
};
use patchbay::time::Duration;

fn ip(a: u8, b: u8, c: u8, d: u8) -> Ipv4 {
    Ipv4::new(a, b, c, d)
}

#[test]
fn generate_round_robin_rules() {
    let balancers = vec![ResolvedBalancer {
        name: "web".to_string(),
        vip: ip(10, 0, 0, 100),
        port: 80,
        backends: vec![
            ResolvedBackend { ip: ip(10, 0, 1, 1), port: 8080 },
            ResolvedBackend { ip: ip(10, 0, 1, 2), port: 8080 },
            ResolvedBackend { ip: ip(10, 0, 1, 3), port: 8080 },
        ],
        algorithm: LbAlgorithm::RoundRobin,
        affinity: SessionAffinity::NoAffinity,
        protocol: LbProtocol::Tcp,
    }];
    let rules = generate_lb_rules(&balancers);
    assert!(rules.contains("numgen inc mod 3"));
    assert!(rules.contains("10.0.1.1 . 8080"));
    assert!(rules.contains("10.0.1.2 . 8080"));
    assert!(rules.contains("10.0.1.3 . 8080"));
    assert!(rules.contains("tcp dport 80"));
    assert!(rules.contains("goto web"));
}

#[test]
fn generate_affinity_rules() {
    let balancers = vec![ResolvedBalancer {
        name: "sticky".to_string(),
        vip: ip(10, 0, 0, 50),
        port: 443,
        backends: vec![
            ResolvedBackend { ip: ip(10, 0, 2, 1), port: 443 },
            ResolvedBackend { ip: ip(10, 0, 2, 2), port: 443 },
        ],
        algorithm: LbAlgorithm::Random,
        affinity: SessionAffinity::ClientIp { timeout: Duration::from_secs(3600) },
        protocol: LbProtocol::Tcp,
    }];
    let rules = generate_lb_rules(&balancers);
    assert!(rules.contains("map sticky_affinity"));
    assert!(rules.contains("timeout 3600s"));
    assert!(rules.contains("numgen random mod 2"));
    assert!(rules.contains("update @sticky_affinity"));
}

#[test]
fn generate_udp_rules() {
    let balancers = vec![ResolvedBalancer {
        name: "dns".to_string(),
        vip: ip(10, 0, 0, 53),
        port: 53,
        backends: vec![ResolvedBackend { ip: ip(10, 0, 3, 1), port: 53 }],
        algorithm: LbAlgorithm::Random,
        affinity: SessionAffinity::NoAffinity,
        protocol: LbProtocol::Udp,
    }];
    let rules = generate_lb_rules(&balancers);
    assert!(rules.contains("udp dport 53"));
}

#[test]
fn generate_both_protocol_rules() {
    let balancers = vec![ResolvedBalancer {
        name: "svc".to_string(),
        vip: ip(10, 0, 0, 1),
        port: 53,
        backends: vec![ResolvedBackend { ip: ip(10, 0, 3, 1), port: 53 }],
        algorithm: LbAlgorithm::RoundRobin,
        affinity: SessionAffinity::NoAffinity,
        protocol: LbProtocol::Both,
    }];
    let rules = generate_lb_rules(&balancers);
    assert!(rules.contains("th dport 53"));
}

#[test]
fn empty_balancer_list_gives_no_rules_beyond_the_table() {
    let rules = generate_lb_rules(&Vec::new());
    assert!(!rules.contains("numgen"));
    assert!(!has_backends(&Vec::new()));
}

#[test]
fn builder_sets_fields() {
    let c = BalancerConfig::new("web", ip(10, 0, 0, 100), 80)
        .backend(NodeId(1), 8080)
        .backend(NodeId(2), 8081)
        .random()
        .udp();
    assert_eq!(c.name, "web");
    assert_eq!(c.backends.len(), 2);
    assert_eq!(c.backends[1].device, NodeId(2));
    assert_eq!(c.backends[1].port, 8081);
    assert_eq!(c.algorithm, LbAlgorithm::Random);
    assert_eq!(c.protocol, LbProtocol::Udp);
    let c = c.round_robin().tcp_and_udp().session_affinity(Duration::from_secs(60));
    assert_eq!(c.algorithm, LbAlgorithm::RoundRobin);
    assert_eq!(c.protocol, LbProtocol::Both);
    assert_eq!(c.affinity, SessionAffinity::ClientIp { timeout: Duration::from_secs(60) });
}

#[test]
fn resolve_maps_devices_to_addresses() {
    let devs = vec![
        DeviceAddr { id: NodeId(1), name: "web1".to_string(), ip: Some(ip(10, 0, 1, 1)) },
        DeviceAddr { id: NodeId(2), name: "web2".to_string(), ip: None },
    ];
    let ok = BalancerConfig::new("web", ip(10, 0, 0, 100), 80).backend(NodeId(1), 8080);
    let r = resolve_balancer(&devs, &ok).unwrap();
    assert_eq!(r.backends, vec![ResolvedBackend { ip: ip(10, 0, 1, 1), port: 8080 }]);
    assert!(!r.has_affinity());
    assert_eq!(r.affinity_timeout_secs(), 0);

    let no_ip = BalancerConfig::new("web", ip(10, 0, 0, 100), 80).backend(NodeId(2), 8080);
    assert!(resolve_balancer(&devs, &no_ip).is_err());
    let unknown = BalancerConfig::new("web", ip(10, 0, 0, 100), 80).backend(NodeId(9), 8080);
    assert!(resolve_balancer(&devs, &unknown).is_err());
}

#[test]
fn backend_add_remove_on_router() {
    let mut rb = RouterBalancers::new();
    let cfg = BalancerConfig::new("web", ip(10, 0, 0, 100), 80)
        .backend(NodeId(1), 8080)
        .backend(NodeId(2), 8080);
    assert!(rb.add_balancer(cfg).is_ok());
    assert!(rb.vip_in_use(ip(10, 0, 0, 100)));
    // The same name twice is refused.
    let dup = BalancerConfig::new("web", ip(10, 0, 0, 101), 80);
    assert!(rb.add_balancer(dup).is_err());

    assert!(rb.remove_lb_backend("web", NodeId(2)).is_ok());
    assert!(rb.remove_lb_backend("web", NodeId(2)).is_err());
    assert!(rb.add_lb_backend("web", NodeId(2), 8080).is_ok());
    assert!(rb.add_lb_backend("nope", NodeId(2), 8080).is_err());

    assert_eq!(rb.remove_balancer("web"), Ok(ip(10, 0, 0, 100)));
    assert!(!rb.vip_in_use(ip(10, 0, 0, 100)));
    assert!(rb.remove_balancer("web").is_err());
}

#[test]
fn conntrack_flush_commands() {
    let tcp = flush_lb_conntrack(ip(10, 0, 0, 100), 80, LbProtocol::Tcp);
    assert_eq!(tcp.len(), 1);
    assert!(tcp[0].contains(&"tcp".to_string()));
    assert!(tcp[0].contains(&"10.0.0.100".to_string()));
    assert!(tcp[0].contains(&"80".to_string()));
    let both = flush_lb_conntrack(ip(10, 0, 0, 100), 80, LbProtocol::Both);
    assert_eq!(both.len(), 2);
}
