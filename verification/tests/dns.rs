use patchbay::balancer::Ipv4;
use patchbay::dns::{DnsRecords, IpAddr, RecordType};

#[test]
fn set_then_resolve_ignores_case() {
    let mut d = DnsRecords::new();
    assert_eq!(d.resolve("relay.test"), None);
    d.set_host("Relay.TEST", IpAddr::V4(Ipv4::new(10, 0, 0, 5))).unwrap();
    assert_eq!(d.resolve("relay.test"), Some(IpAddr::V4(Ipv4::new(10, 0, 0, 5))));
    assert_eq!(d.resolve("relay.test."), Some(IpAddr::V4(Ipv4::new(10, 0, 0, 5))));
    assert_eq!(d.resolve("other.test"), None);
}

#[test]
fn first_a_record_wins_over_aaaa() {
    let mut d = DnsRecords::new();
    d.set_host("h.test", IpAddr::V6(1)).unwrap();
    assert_eq!(d.resolve("h.test"), Some(IpAddr::V6(1)));
    d.set_host("h.test", IpAddr::V4(Ipv4::new(1, 2, 3, 4))).unwrap();
    d.set_host("h.test", IpAddr::V4(Ipv4::new(5, 6, 7, 8))).unwrap();
    assert_eq!(d.resolve("h.test"), Some(IpAddr::V4(Ipv4::new(1, 2, 3, 4))));
}

#[test]
fn remove_clears_one_type() {
    let mut d = DnsRecords::new();
    d.set_host("h.test", IpAddr::V4(Ipv4::new(1, 2, 3, 4))).unwrap();
    d.set_host("h.test", IpAddr::V6(7)).unwrap();
    d.set_txt("h.test", &vec!["v=1".to_string()]).unwrap();
    d.remove("h.test", RecordType::A).unwrap();
    assert_eq!(d.resolve("h.test"), Some(IpAddr::V6(7)));
    d.remove("h.test", RecordType::Aaaa).unwrap();
    assert_eq!(d.resolve("h.test"), None);
}

#[test]
fn invalid_names_are_refused() {
    let mut d = DnsRecords::new();
    let long = format!("{}.test", "a".repeat(64));
    assert_eq!(d.set_host(&long, IpAddr::V6(1)), Err("invalid DNS name".to_string()));
    assert_eq!(d.set_txt(&long, &Vec::new()), Err("invalid DNS name".to_string()));
    assert_eq!(d.remove(&long, RecordType::Txt), Err("invalid DNS name".to_string()));
    assert_eq!(d.resolve(&long), None);
}

use hickory_proto::op::{Message, MessageType, Query, ResponseCode};
use hickory_proto::rr::{Name, RData, RecordType as WireType};
use hickory_proto::serialize::binary::{BinDecodable, BinEncodable};

fn query_bytes(name: &str, t: WireType) -> Vec<u8> {
    let mut m = Message::new();
    m.set_id(7);
    m.set_message_type(MessageType::Query);
    m.set_recursion_desired(true);
    m.add_query(Query::query(Name::from_ascii(name).unwrap(), t));
    m.to_bytes().unwrap()
}

#[test]
fn query_is_answered_with_the_record_just_set() {
    let mut d = DnsRecords::new();
    d.set_host("Relay.Test", IpAddr::V4(Ipv4::new(10, 0, 0, 5))).unwrap();
    let out = d.handle_query(&query_bytes("relay.test.", WireType::A)).unwrap();
    let r = Message::from_bytes(&out).unwrap();
    assert_eq!(r.id(), 7);
    assert_eq!(r.message_type(), MessageType::Response);
    assert!(r.authoritative());
    assert!(r.recursion_desired());
    assert!(!r.recursion_available());
    assert_eq!(r.response_code(), ResponseCode::NoError);
    assert_eq!(r.queries().len(), 1);
    assert_eq!(r.answers().len(), 1);
    let a = &r.answers()[0];
    assert_eq!(a.ttl(), 0);
    assert!(a.name().to_ascii().starts_with("Relay.Test"));
    match a.data() {
        Some(RData::A(ip)) => assert_eq!(ip.0.octets(), [10, 0, 0, 5]),
        other => panic!("unexpected answer {:?}", other),
    }
}

#[test]
fn txt_and_aaaa_answers() {
    let mut d = DnsRecords::new();
    d.set_txt("_acme.test", &vec!["a".to_string(), "b".to_string()]).unwrap();
    d.set_host("v6.test", IpAddr::V6(1)).unwrap();
    let r = Message::from_bytes(&d.handle_query(&query_bytes("_acme.test.", WireType::TXT)).unwrap()).unwrap();
    assert_eq!(r.answers().len(), 1);
    match r.answers()[0].data() {
        Some(RData::TXT(t)) => assert_eq!(t.txt_data().len(), 2),
        other => panic!("unexpected answer {:?}", other),
    }
    let r = Message::from_bytes(&d.handle_query(&query_bytes("v6.test.", WireType::AAAA)).unwrap()).unwrap();
    match r.answers()[0].data() {
        Some(RData::AAAA(ip)) => assert_eq!(u128::from(ip.0), 1),
        other => panic!("unexpected answer {:?}", other),
    }
}

#[test]
fn unknown_names_and_types_are_nxdomain() {
    let mut d = DnsRecords::new();
    d.set_host("h.test", IpAddr::V4(Ipv4::new(1, 2, 3, 4))).unwrap();
    let r = Message::from_bytes(&d.handle_query(&query_bytes("other.test.", WireType::A)).unwrap()).unwrap();
    assert_eq!(r.response_code(), ResponseCode::NXDomain);
    assert!(r.answers().is_empty());
    let r = Message::from_bytes(&d.handle_query(&query_bytes("h.test.", WireType::MX)).unwrap()).unwrap();
    assert_eq!(r.response_code(), ResponseCode::NXDomain);
    let r = Message::from_bytes(&d.handle_query(&query_bytes("h.test.", WireType::AAAA)).unwrap()).unwrap();
    assert_eq!(r.response_code(), ResponseCode::NXDomain);
}

#[test]
fn responses_and_garbage_get_no_reply() {
    let d = DnsRecords::new();
    assert_eq!(d.handle_query(&[1, 2, 3]), None);
    let mut m = Message::new();
    m.set_message_type(MessageType::Response);
    assert_eq!(d.handle_query(&m.to_bytes().unwrap()), None);
}
