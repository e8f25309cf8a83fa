use flowspec::{
    rfc8955_cmp, Addr, Afi, BitmaskOp, Component, FlowSpecNlri, FormError, NumericOp, ParseError,
    Parser, Prefix,
};
use std::cmp::Ordering;

fn parse(raw: &[u8], afi: Afi) -> Result<FlowSpecNlri, ParseError> {
    let mut parser = Parser::from_ref(raw);
    FlowSpecNlri::parse(&mut parser, afi)
}

fn numeric(raw: &[u8]) -> Result<NumericOp, ParseError> {
    let mut parser = Parser::from_ref(raw);
    NumericOp::parse(&mut parser)
}

fn bitmask(raw: &[u8]) -> Result<BitmaskOp, ParseError> {
    let mut parser = Parser::from_ref(raw);
    BitmaskOp::parse(&mut parser)
}

#[test]
fn numeric_op_flags_and_value() {
    // 0x13 = len2 | gt | eq, value 0x0400
    let op = numeric(&[0x13, 0x04, 0x00]).unwrap();
    assert!(!op.end_of_list());
    assert!(!op.and());
    assert!(!op.lt());
    assert!(op.gt());
    assert!(op.eq());
    assert_eq!(op.length(), 2);
    assert_eq!(op.value(), 1024);
    assert_eq!(op.to_string(), ">=1024");
    // 0xd5 = eol | and | len2 | lt | eq
    let op = numeric(&[0xd5, 0x08, 0x00]).unwrap();
    assert!(op.end_of_list());
    assert!(op.and());
    assert!(op.lt());
    assert_eq!(op.to_string(), "<=2048");
}

#[test]
fn numeric_op_value_lengths() {
    assert_eq!(numeric(&[0x01, 0x07]).unwrap().length(), 1);
    assert_eq!(numeric(&[0x11, 0x01, 0x02]).unwrap().value(), 0x0102);
    assert_eq!(numeric(&[0x21, 1, 2, 3, 4]).unwrap().value(), 0x01020304);
    let op = numeric(&[0x31, 1, 2, 3, 4, 5, 6, 7, 8]).unwrap();
    assert_eq!(op.length(), 8);
    assert_eq!(op.value(), 0x0102030405060708);
    let max = numeric(&[0x31, 0xff, 0xff, 0xff, 0xff, 0xff, 0xff, 0xff, 0xff]).unwrap();
    assert_eq!(max.to_string(), "=18446744073709551615");
}

#[test]
fn numeric_op_short_input() {
    assert_eq!(numeric(&[]).err(), Some(ParseError::ShortInput));
    assert_eq!(numeric(&[0x11, 0x00]).err(), Some(ParseError::ShortInput));
}

#[test]
fn numeric_op_texts() {
    let texts = ["false", "=5", ">5", ">=5", "<5", "<=5", "!=5", "any"];
    for (bits, text) in texts.iter().enumerate() {
        let op = numeric(&[bits as u8, 5]).unwrap();
        assert_eq!(op.to_string(), *text);
    }
    assert_eq!(numeric(&[0x01, 0]).unwrap().to_string(), "=0");
    assert_eq!(numeric(&[0x11, 0x27, 0x10]).unwrap().to_string(), "=10000");
}

#[test]
fn bitmask_op_flags_and_text() {
    // 0x83 = eol | not | match
    let op = bitmask(&[0x83, 0x02]).unwrap();
    assert!(op.end_of_list());
    assert!(!op.and());
    assert!(op.not());
    assert!(op.match_exact());
    assert_eq!(op.value(), 2);
    assert_eq!(op.to_string(), "!=0x02");
    assert_eq!(bitmask(&[0x00, 0x0f]).unwrap().to_string(), "0x0f");
    assert_eq!(bitmask(&[0x12, 0x01, 0xff]).unwrap().to_string(), "!0x1ff");
    assert_eq!(bitmask(&[0x40, 0xab]).unwrap().to_string(), "0xab");
}

#[test]
fn error_short_input() {
    assert_eq!(parse(&[], Afi::Ipv4).err(), Some(ParseError::ShortInput));
    assert_eq!(parse(&[0xf0], Afi::Ipv4).err(), Some(ParseError::ShortInput));
    // the last component runs past the end of the input
    assert_eq!(parse(&[0x02, 0x03, 0x01], Afi::Ipv4).err(), Some(ParseError::ShortInput));
}

#[test]
fn error_invalid_length() {
    assert_eq!(
        parse(&[0x05, 0x03, 0x81], Afi::Ipv4).err(),
        Some(ParseError::Form(FormError::InvalidNlriLength))
    );
}

#[test]
fn error_illegal_afi() {
    assert_eq!(
        parse(&[0x03, 0x03, 0x81, 0x11], Afi::L2Vpn).err(),
        Some(ParseError::Form(FormError::IllegalAfi))
    );
    assert_eq!(
        parse(&[0x03, 0x03, 0x81, 0x11], Afi::Unimplemented(7)).err(),
        Some(ParseError::Form(FormError::IllegalAfi))
    );
}

#[test]
fn error_ipv4_prefix_too_long() {
    assert_eq!(
        parse(&[0x02, 0x01, 0x21], Afi::Ipv4).err(),
        Some(ParseError::Form(FormError::IllegalIpv4ByteSize))
    );
}

#[test]
fn error_ipv6_length_and_offset() {
    assert_eq!(
        parse(&[0x03, 0x01, 0x81, 0x00], Afi::Ipv6).err(),
        Some(ParseError::Form(FormError::Ipv6LengthTooLarge))
    );
    assert_eq!(
        parse(&[0x04, 0x01, 0x10, 0x20, 0x0d], Afi::Ipv6).err(),
        Some(ParseError::Form(FormError::Ipv6OffsetExceedsLength))
    );
}

#[test]
fn error_host_bits_set() {
    // 10.0.1.0/23 has a host bit set
    assert_eq!(
        parse(&[0x05, 0x01, 0x17, 0x0a, 0x00, 0x01], Afi::Ipv4).err(),
        Some(ParseError::Form(FormError::PrefixParseFailed))
    );
}

#[test]
fn error_flow_label_and_unsupported() {
    assert_eq!(
        parse(&[0x03, 0x0d, 0x81, 0x05], Afi::Ipv4).err(),
        Some(ParseError::Form(FormError::FlowLabelIpv6Only))
    );
    assert_eq!(parse(&[0x02, 0x0e, 0x00], Afi::Ipv4).err(), Some(ParseError::Unsupported));
    assert_eq!(parse(&[0x02, 0x00, 0x00], Afi::Ipv6).err(), Some(ParseError::Unsupported));
}

#[test]
fn form_error_descriptions() {
    assert_eq!(FormError::InvalidNlriLength.description(), "invalid length of FlowSpec NLRI");
    assert_eq!(FormError::FlowLabelIpv6Only.description(), "Flow Label component is IPv6-only");
}

#[test]
fn parse_consumes_exactly_the_nlri() {
    let raw = [0x03, 0x03, 0x81, 0x11, 0xaa, 0xbb];
    let mut parser = Parser::from_ref(&raw[..]);
    let nlri = FlowSpecNlri::parse(&mut parser, Afi::Ipv4).unwrap();
    assert_eq!(parser.pos(), 4);
    assert_eq!(parser.remaining(), 2);
    assert_eq!(nlri.raw(), &[0x03, 0x81, 0x11][..]);
    assert_eq!(nlri.afi(), Afi::Ipv4);
    assert_eq!(nlri.compose_len(), 3);
}

#[test]
fn compose_parse_round_trip_short() {
    let raw = [0x0b, 0x01, 0x18, 0x0a, 0x00, 0x01, 0x03, 0x81, 0x11, 0x05, 0x81, 0x35];
    let nlri = parse(&raw, Afi::Ipv4).unwrap();
    let mut out = Vec::new();
    nlri.compose(&mut out);
    assert_eq!(out, raw.to_vec());
    let again = parse(&out, Afi::Ipv4).unwrap();
    assert!(again == nlri);
}

#[test]
fn compose_parse_round_trip_long() {
    // 80 times {proto =17}: 240 bytes, which takes the two-byte length
    let mut body = Vec::new();
    for _ in 0..80 {
        body.extend_from_slice(&[0x03, 0x81, 0x11]);
    }
    let nlri = FlowSpecNlri::from_parts(Afi::Ipv4, body.clone());
    let mut out = Vec::new();
    nlri.compose(&mut out);
    assert_eq!(&out[..2], &[0xf0, 0xf0][..]);
    assert_eq!(&out[2..], &body[..]);
    let again = parse(&out, Afi::Ipv4).unwrap();
    assert_eq!(again.raw(), &body[..]);
    assert!(again == nlri);
}

#[test]
fn compose_saturates_beyond_u16() {
    let nlri = FlowSpecNlri::from_parts(Afi::Ipv4, vec![0u8; 70000]);
    let mut out = Vec::new();
    nlri.compose(&mut out);
    assert_eq!(&out[..2], &[0xff, 0xff][..]);
    assert_eq!(out.len(), 70002);
}

#[test]
fn iterator_fuses_after_failure() {
    let nlri = FlowSpecNlri::from_parts(Afi::Ipv4, vec![0x03, 0x81, 0x11, 0x00, 0x03, 0x81, 0x11]);
    let mut it = nlri.components();
    assert_eq!(it.next().unwrap().unwrap().type_code(), 3);
    assert_eq!(it.next().unwrap().err(), Some(ParseError::Unsupported));
    assert!(it.next().is_none());
    assert!(it.next().is_none());
}

#[test]
fn dst_prefix_none_when_malformed_first() {
    let nlri = FlowSpecNlri::from_parts(Afi::Ipv4, vec![0x00, 0x01, 0x18, 0x0a, 0x00, 0x01]);
    assert!(nlri.dst_prefix().is_none());
    let ok = FlowSpecNlri::from_parts(Afi::Ipv4, vec![0x03, 0x81, 0x11, 0x01, 0x08, 0x0a]);
    let p = ok.dst_prefix().unwrap();
    assert_eq!(p.addr(), Addr::V4(0x0a000000));
    assert_eq!(p.len(), 8);
}

#[test]
fn dst_prefix_none_when_malformed_later() {
    let nlri = parse(&[0x06, 0x01, 0x18, 0x0a, 0x00, 0x01, 0x03, 0x81, 0x11], Afi::Ipv4).unwrap();
    assert_eq!(nlri.raw(), &[0x01, 0x18, 0x0a, 0x00, 0x01, 0x03][..]);
    let mut it = nlri.components();
    assert_eq!(it.next().unwrap().unwrap().type_code(), 1);
    assert!(it.next().unwrap().is_err());
    assert!(nlri.dst_prefix().is_none());
    let direct = FlowSpecNlri::from_parts(Afi::Ipv4, vec![0x01, 0x18, 0x0a, 0x00, 0x01, 0x03]);
    assert!(direct.dst_prefix().is_none());
}

#[test]
fn text_fallbacks() {
    assert_eq!(FlowSpecNlri::from_parts(Afi::Ipv4, vec![]).to_string(), "flowspec-empty");
    assert_eq!(
        FlowSpecNlri::from_parts(Afi::Ipv4, vec![0x03, 0x81]).to_string(),
        "flowspec-raw(0381)"
    );
    assert_eq!(
        FlowSpecNlri::from_parts(Afi::Ipv4, vec![0x03, 0x81, 0x11, 0x00]).to_string(),
        "proto =17, flowspec-raw(03811100)"
    );
    assert_eq!(Component::IpProtocol(vec![0x01]).to_string(), "proto <malformed-ops>");
    assert_eq!(Component::IpProtocol(vec![0x01, 0x05]).to_string(), "proto =5");
    assert_eq!(
        Component::TcpFlags(vec![0x01, 0x02, 0x00]).to_string(),
        "tcp-flags =0x02<malformed-ops>"
    );
}

#[test]
fn text_of_each_component_kind() {
    let p = Prefix::new(Addr::V4(0xc0000200), 24).unwrap();
    assert_eq!(Component::SourcePrefix(p).to_string(), "src 192.0.2.0/24");
    assert_eq!(Component::DestinationPrefix(p).to_string(), "dst 192.0.2.0/24");
    let q = Prefix::new(Addr::V6(0x20010db8 << 96), 32).unwrap();
    assert_eq!(Component::SourcePrefixV6 { prefix: q, offset: 0 }.to_string(), "src 2001:db8::/32");
    assert_eq!(
        Component::SourcePrefixV6 { prefix: q, offset: 3 }.to_string(),
        "src 2001:db8::/32 offset 3"
    );
    let ops = vec![0x81, 0x06];
    let cases: Vec<(Component, &str)> = vec![
        (Component::Port(ops.clone()), "port =6"),
        (Component::DestinationPort(ops.clone()), "dport =6"),
        (Component::SourcePort(ops.clone()), "sport =6"),
        (Component::IcmpType(ops.clone()), "icmp-type =6"),
        (Component::IcmpCode(ops.clone()), "icmp-code =6"),
        (Component::PacketLength(ops.clone()), "pkt-len =6"),
        (Component::DSCP(ops.clone()), "dscp =6"),
        (Component::Fragment(ops.clone()), "frag =0x06"),
        (Component::FlowLabel(ops.clone()), "flow-label =6"),
    ];
    for (c, text) in cases {
        assert_eq!(c.to_string(), text);
        assert_eq!(c.op_bytes(), Some(&ops[..]));
    }
    assert_eq!(Component::DestinationPrefix(p).op_bytes(), None);
}

#[test]
fn v6_full_offset_gives_zero_address() {
    // length 128, offset 128: no pattern bytes
    let nlri = parse(&[0x03, 0x01, 0x80, 0x80], Afi::Ipv6).unwrap();
    assert_eq!(nlri.to_string(), "dst ::/128 offset 128");
}

#[test]
fn v6_source_prefix_with_offset() {
    // src: length 24, offset 8, pattern bits [8, 24) = 0xabcd
    let nlri = parse(&[0x05, 0x02, 0x18, 0x08, 0xab, 0xcd], Afi::Ipv6).unwrap();
    assert_eq!(nlri.to_string(), "src ab:cd00::/24 offset 8");
}

#[test]
fn prefix_new_checks_length_and_host_bits() {
    let p = Prefix::new(Addr::V4(0x0a000100), 24).unwrap();
    assert_eq!(p.to_chars().into_iter().collect::<String>(), "10.0.1.0/24");
    assert!(p.is_v4());
    assert_eq!(p.bits(), 0x0a000100u128 << 96);
    assert_eq!(
        Prefix::new(Addr::V4(0x0a000101), 24).err(),
        Some(ParseError::Form(FormError::PrefixParseFailed))
    );
    assert!(Prefix::new(Addr::V4(0), 33).is_err());
    assert!(Prefix::new(Addr::V6(0), 128).is_ok());
    assert!(Prefix::new(Addr::V6(0), 129).is_err());
    assert!(Prefix::new(Addr::V6(1), 127).is_err());
}

#[test]
fn ordering_is_antisymmetric_on_examples() {
    let rules: Vec<FlowSpecNlri> = vec![
        parse(&[0x0b, 0x01, 0x18, 0x0a, 0x00, 0x01, 0x03, 0x81, 0x11, 0x05, 0x81, 0x35], Afi::Ipv4).unwrap(),
        parse(&[0x03, 0x03, 0x81, 0x11], Afi::Ipv4).unwrap(),
        parse(&[0x05, 0x03, 0x01, 0x11, 0x81, 0x12], Afi::Ipv4).unwrap(),
        FlowSpecNlri::from_parts(Afi::Ipv4, vec![0x00]),
    ];
    for a in &rules {
        assert_eq!(rfc8955_cmp(a, a), Ordering::Equal);
        for b in &rules {
            assert_eq!(rfc8955_cmp(a, b), rfc8955_cmp(b, a).reverse());
        }
    }
}

#[test]
fn ordering_of_operator_lists_and_fallback() {
    // {proto =17 || =18} has precedence over {proto =17}: longer list
    let longer = parse(&[0x05, 0x03, 0x01, 0x11, 0x81, 0x12], Afi::Ipv4).unwrap();
    let shorter = parse(&[0x03, 0x03, 0x81, 0x11], Afi::Ipv4).unwrap();
    assert_eq!(rfc8955_cmp(&longer, &shorter), Ordering::Less);
    // lower value has precedence
    let six = parse(&[0x03, 0x03, 0x81, 0x06], Afi::Ipv4).unwrap();
    assert_eq!(rfc8955_cmp(&six, &shorter), Ordering::Less);
    // a malformed rule falls back to the raw bytes
    let bad = FlowSpecNlri::from_parts(Afi::Ipv4, vec![0x00]);
    assert_eq!(rfc8955_cmp(&bad, &shorter), Ordering::Less);
    assert_eq!(rfc8955_cmp(&shorter, &bad), Ordering::Greater);
    // lower offset has precedence
    let off0 = parse(&[0x05, 0x01, 0x10, 0x00, 0x20, 0x01], Afi::Ipv6).unwrap();
    let off8 = parse(&[0x04, 0x01, 0x10, 0x08, 0x01], Afi::Ipv6).unwrap();
    assert_eq!(rfc8955_cmp(&off0, &off8), Ordering::Less);
}

#[test]
fn equality_and_raw_order() {
    let a = parse(&[0x03, 0x03, 0x81, 0x11], Afi::Ipv4).unwrap();
    let b = a.to_owned_octets();
    assert!(a == b);
    let c = FlowSpecNlri::from_parts(Afi::Ipv6, vec![0x03, 0x81, 0x11]);
    assert!(a != c);
    let d = FlowSpecNlri::from_parts(Afi::Ipv4, vec![0x03, 0x81, 0x12]);
    assert!(a != d);
    assert_eq!(a.partial_cmp(&d), Some(Ordering::Less));
    assert_eq!(d.partial_cmp(&a), Some(Ordering::Greater));
    assert_eq!(a.partial_cmp(&c), Some(Ordering::Equal));
}

#[test]
fn malformed_rule_falls_outside_the_rule_order() {
    // dst 10.0.1.0/25 comes before dst 10.0.1.0/24 (more specific) ...
    let a = FlowSpecNlri::from_parts(Afi::Ipv4, vec![0x01, 0x19, 0x0a, 0x00, 0x01, 0x00]);
    let b = FlowSpecNlri::from_parts(Afi::Ipv4, vec![0x01, 0x18, 0x0a, 0x00, 0x01]);
    // ... while a truncated rule is placed by its raw bytes
    let m = FlowSpecNlri::from_parts(Afi::Ipv4, vec![0x01, 0x18, 0xff]);
    assert_eq!(rfc8955_cmp(&a, &b), Ordering::Less);
    assert_eq!(rfc8955_cmp(&b, &m), Ordering::Less);
    assert_eq!(rfc8955_cmp(&m, &a), Ordering::Less);
}
