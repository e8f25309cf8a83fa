use flowspec::{rfc8955_cmp, Addr, Afi, BitmaskOp, Component, FlowSpecNlri, FormError, NumericOp, ParseError, Parser, Prefix};
use std::cmp::Ordering;
use std::str::FromStr;

// {dst 10.0.1.0/24, proto =17, dport =53}
const V4_RULE: &[u8] = &[
    0x0b, // NLRI length
    0x01, 0x18, 0x0a, 0x00, 0x01, // dst-prefix 10.0.1.0/24
    0x03, 0x81, 0x11, // proto == 17
    0x05, 0x81, 0x35, // dst-port == 53
];

fn parse_v4(raw: &[u8]) -> FlowSpecNlri {
    let mut parser = Parser::from_ref(raw);
    FlowSpecNlri::parse(&mut parser, Afi::Ipv4).unwrap()
}

fn parse_v6(raw: &[u8]) -> FlowSpecNlri {
    let mut parser = Parser::from_ref(raw);
    FlowSpecNlri::parse(&mut parser, Afi::Ipv6).unwrap()
}

fn components(nlri: &FlowSpecNlri) -> Result<Vec<Component>, ParseError> {
    let mut it = nlri.components();
    let mut out = Vec::new();
    while let Some(item) = it.next() {
        out.push(item?);
    }
    Ok(out)
}

fn inet(p: &Prefix) -> inetnum::addr::Prefix {
    match p.addr() {
        Addr::V4(a) => inetnum::addr::Prefix::new(a.to_be_bytes().into(), p.len()).unwrap(),
        Addr::V6(a) => inetnum::addr::Prefix::new(a.to_be_bytes().into(), p.len()).unwrap(),
    }
}

fn expect(s: &str) -> inetnum::addr::Prefix {
    inetnum::addr::Prefix::from_str(s).unwrap()
}

#[test]
fn v4_components_and_dst_prefix() {
    let nlri = parse_v4(V4_RULE);
    let comps = components(&nlri).unwrap();
    assert_eq!(comps.len(), 3);
    assert_eq!(comps[0].type_code(), 1);
    assert_eq!(comps[1].type_code(), 3);
    assert_eq!(comps[2].type_code(), 5);
    assert_eq!(nlri.dst_prefix().map(|p| inet(&p)), Some(expect("10.0.1.0/24")));
}

#[test]
fn v4_display() {
    let nlri = parse_v4(V4_RULE);
    assert_eq!(nlri.to_string(), "dst 10.0.1.0/24, proto =17, dport =53");
}

#[test]
fn v4_no_dst_prefix() {
    // {proto =17, sport =53}
    let raw = [0x06, 0x03, 0x81, 0x11, 0x06, 0x81, 0x35];
    let nlri = parse_v4(&raw);
    assert!(nlri.dst_prefix().is_none());
}

#[test]
fn v6_offset_zero_round_trip() {
    // dst 2001:db8::/32 offset 0
    let raw = [0x07, 0x01, 0x20, 0x00, 0x20, 0x01, 0x0d, 0xb8];
    let nlri = parse_v6(&raw);
    assert_eq!(nlri.dst_prefix().map(|p| inet(&p)), Some(expect("2001:db8::/32")));
    assert_eq!(nlri.to_string(), "dst 2001:db8::/32");
}

#[test]
fn v6_nonzero_offset() {
    // dst bits [16,32) = 0x0db8, offset 16, length 32
    let raw = [0x05, 0x01, 0x20, 0x10, 0x0d, 0xb8];
    let nlri = parse_v6(&raw);
    // offset-anchored prefixes are not usable as index keys
    assert!(nlri.dst_prefix().is_none());
    let comps = components(&nlri).unwrap();
    match &comps[0] {
        Component::DestinationPrefixV6 { prefix, offset } => {
            assert_eq!(*offset, 16);
            assert_eq!(inet(prefix), expect("0:db8::/32"));
        }
        _ => panic!("expected DestinationPrefixV6"),
    }
    assert_eq!(nlri.to_string(), "dst 0:db8::/32 offset 16");
}

#[test]
fn v6_flow_label() {
    // {flow-label == 5} (4-byte numeric op)
    let raw = [0x06, 0x0d, 0xa1, 0x00, 0x00, 0x00, 0x05];
    let nlri = parse_v6(&raw);
    let comps = components(&nlri).unwrap();
    assert_eq!(comps[0].type_code(), 13);
    assert_eq!(nlri.to_string(), "flow-label =5");
}

#[test]
fn v6_offset_exceeding_length_rejected() {
    // length 16, offset 32
    let raw = [0x04, 0x01, 0x10, 0x20, 0x0d];
    let mut parser = Parser::from_ref(&raw[..]);
    assert!(FlowSpecNlri::parse(&mut parser, Afi::Ipv6).is_err());
}

#[test]
fn flow_label_rejected_under_v4() {
    let raw = [0x03, 0x0d, 0x81, 0x05];
    let mut parser = Parser::from_ref(&raw[..]);
    assert!(FlowSpecNlri::parse(&mut parser, Afi::Ipv4).is_err());
}

#[test]
fn v6_components_now_validated() {
    // operator bytes under v6 are checked like under v4
    let raw = [0x03, 0xff, 0xff, 0xff];
    let mut parser = Parser::from_ref(&raw[..]);
    assert!(FlowSpecNlri::parse(&mut parser, Afi::Ipv6).is_err());
}

#[test]
fn display_multi_op_and_bitmask() {
    // {port >=1024 && <=2048, tcp-flags SYN}
    // port op 1: 0x13 = len2|gt|eq (>=), value 0x0400
    // port op 2: 0xd5 = eol|and|len2|lt|eq (<=), value 0x0800
    // tcp-flags op: 0x81 = eol|len1|match, value 0x02
    let raw = [
        0x0au8,
        0x04, 0x13, 0x04, 0x00, 0xd5, 0x08, 0x00,
        0x09, 0x81, 0x02,
    ];
    let nlri = parse_v4(&raw);
    assert_eq!(nlri.to_string(), "port >=1024 && <=2048, tcp-flags =0x02");
}

#[test]
fn rfc8955_ordering() {
    let dst_10_0_1_0_24 = parse_v4(V4_RULE);
    // {dst 10.0.1.0/25, proto =17, dport =53}
    let more_specific = parse_v4(&[
        0x0c,
        0x01, 0x19, 0x0a, 0x00, 0x01, 0x00,
        0x03, 0x81, 0x11,
        0x05, 0x81, 0x35,
    ]);
    // {dst 10.0.0.0/24 ...}
    let lower_ip = parse_v4(&[
        0x0b,
        0x01, 0x18, 0x0a, 0x00, 0x00,
        0x03, 0x81, 0x11,
        0x05, 0x81, 0x35,
    ]);
    // {proto =17}
    let no_dst = parse_v4(&[0x03, 0x03, 0x81, 0x11]);
    // {dst 10.0.1.0/24, proto =17}
    let fewer = parse_v4(&[
        0x08,
        0x01, 0x18, 0x0a, 0x00, 0x01,
        0x03, 0x81, 0x11,
    ]);

    // more specific dst prefix has precedence
    assert_eq!(rfc8955_cmp(&more_specific, &dst_10_0_1_0_24), Ordering::Less);
    // lower IP value has precedence
    assert_eq!(rfc8955_cmp(&lower_ip, &dst_10_0_1_0_24), Ordering::Less);
    // lower component type (1 vs 3) has precedence
    assert_eq!(rfc8955_cmp(&dst_10_0_1_0_24, &no_dst), Ordering::Less);
    // more components has precedence
    assert_eq!(rfc8955_cmp(&dst_10_0_1_0_24, &fewer), Ordering::Less);
    // reflexivity
    assert_eq!(rfc8955_cmp(&dst_10_0_1_0_24, &dst_10_0_1_0_24), Ordering::Equal);
}
