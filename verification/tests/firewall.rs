use patchbay::firewall::{Firewall, FirewallConfig};

#[test]
fn presets_expand_to_their_rules() {
    assert!(Firewall::NoFilter.to_config().is_none());
    assert!(Firewall::BlockInbound.to_config().is_none());

    let corp = Firewall::Corporate.to_config().unwrap();
    assert_eq!(corp.allow_tcp, vec![80, 443]);
    assert_eq!(corp.allow_udp, vec![53]);
    assert!(corp.block_tcp);
    assert!(corp.block_udp);

    let portal = Firewall::CaptivePortal.to_config().unwrap();
    assert_eq!(portal.allow_tcp, vec![80, 443, 53]);
    assert_eq!(portal.allow_udp, vec![53]);
    assert!(!portal.block_tcp);
    assert!(portal.block_udp);
}

#[test]
fn default_firewall_filters_nothing() {
    assert!(matches!(Firewall::default(), Firewall::NoFilter));
    let c = FirewallConfig::default();
    assert!(c.allow_tcp.is_empty() && c.allow_udp.is_empty() && !c.block_tcp && !c.block_udp);
}

#[test]
fn builder_accumulates_ports() {
    let cfg = FirewallConfig::builder()
        .allow_tcp(&[22])
        .allow_tcp(&[80, 443])
        .allow_udp(&[53])
        .block_tcp()
        .block_udp()
        .build();
    assert_eq!(cfg.allow_tcp, vec![22, 80, 443]);
    assert_eq!(cfg.allow_udp, vec![53]);
    assert!(cfg.block_tcp && cfg.block_udp);

    let custom = Firewall::Custom(cfg).to_config().unwrap();
    assert_eq!(custom.allow_tcp, vec![22, 80, 443]);
}
