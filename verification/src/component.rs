use vstd::prelude::*;
use crate::afi::Afi;
use crate::error::{FormError, ParseError};
use crate::ops::{
    fmt_bitmask_ops, fmt_numeric_ops, op_list_end, ops_text, parse_bitmask_op_octets,
    parse_numeric_op_octets,
};
use crate::parser::{be_uint, lemma_be_uint_bound, lemma_be_uint_push, lemma_pow256_mono, pow256, Parser};
use crate::prefix::{prefix_ok, prefix_text, Addr, Prefix};
use crate::text::{chars_to_string, dec_text, push_chars, push_decimal_u8, push_str};

verus! {

/// The number of bytes that hold `bits` bits.
pub open spec fn prefix_bytes(bits: u8) -> nat {
    if bits == 0 {
        0
    } else {
        ((bits - 1) / 8 + 1) as nat
    }
}

/// `s` followed by zero bytes up to `width` bytes.
pub open spec fn zero_pad(s: Seq<u8>, width: nat) -> Seq<u8> {
    s + Seq::new((width - s.len()) as nat, |i: int| 0u8)
}

/// The big-endian value of `s` left-aligned in `width` bytes.
pub open spec fn padded_value(s: Seq<u8>, width: nat) -> nat {
    be_uint(zero_pad(s, width))
}

/// The prefix (as address and length) and the position after it, for a
/// prefix of `bits` bits whose address bytes start at `pos`
/// (RFC 8955 §4.2.2, types 1 and 2).
pub open spec fn prefix_at(s: Seq<u8>, pos: int, afi: Afi, bits: u8) -> Result<
    ((Addr, u8), int),
    ParseError,
> {
    let n = prefix_bytes(bits);
    if afi is Ipv4 {
        if n == 0 {
            Ok(((Addr::V4(0), 0), pos))
        } else if n >= 5 {
            Err(ParseError::Form(FormError::IllegalIpv4ByteSize))
        } else if pos + n > s.len() {
            Err(ParseError::ShortInput)
        } else {
            let a = Addr::V4(padded_value(s.subrange(pos, pos + n), 4) as u32);
            if prefix_ok(a, bits) {
                Ok(((a, bits), pos + n))
            } else {
                Err(ParseError::Form(FormError::PrefixParseFailed))
            }
        }
    } else {
        if n == 0 {
            Ok(((Addr::V6(0), 0), pos))
        } else if n >= 17 {
            Err(ParseError::Form(FormError::IllegalIpv6ByteSize))
        } else if pos + n > s.len() {
            Err(ParseError::ShortInput)
        } else {
            let a = Addr::V6(padded_value(s.subrange(pos, pos + n), 16) as u128);
            if prefix_ok(a, bits) {
                Ok(((a, bits), pos + n))
            } else {
                Err(ParseError::Form(FormError::PrefixParseFailed))
            }
        }
    }
}

/// The IPv6 prefix and the position after it, for a prefix pattern of
/// length `bits` and offset `offset` whose pattern bytes start at `pos`
/// (RFC 8956 §3.1): the pattern holds bits `[offset, bits)` of the address.
pub open spec fn prefix_v6_at(s: Seq<u8>, pos: int, bits: u8, offset: u8) -> Result<
    ((Addr, u8), int),
    ParseError,
> {
    if bits > 128 {
        Err(ParseError::Form(FormError::Ipv6LengthTooLarge))
    } else if offset > bits {
        Err(ParseError::Form(FormError::Ipv6OffsetExceedsLength))
    } else {
        let n = prefix_bytes((bits - offset) as u8);
        if pos + n > s.len() {
            Err(ParseError::ShortInput)
        } else {
            let v = padded_value(s.subrange(pos, pos + n), 16) as u128;
            let a = Addr::V6(
                if offset < 128 {
                    v >> (offset as u128)
                } else {
                    0
                },
            );
            if prefix_ok(a, bits) {
                Ok(((a, bits), pos + n))
            } else {
                Err(ParseError::Form(FormError::PrefixParseFailed))
            }
        }
    }
}

/// What a component is, with operator lists as their bytes.
pub enum ComponentView {
    DestinationPrefix((Addr, u8)),
    SourcePrefix((Addr, u8)),
    DestinationPrefixV6 { prefix: (Addr, u8), offset: u8 },
    SourcePrefixV6 { prefix: (Addr, u8), offset: u8 },
    /// An operator-list component of type `code` (3 to 13).
    Ops { code: u8, bytes: Seq<u8> },
}

/// The component type code.
pub open spec fn type_code_of(c: ComponentView) -> u8 {
    match c {
        ComponentView::DestinationPrefix(_) => 1,
        ComponentView::DestinationPrefixV6 { .. } => 1,
        ComponentView::SourcePrefix(_) => 2,
        ComponentView::SourcePrefixV6 { .. } => 2,
        ComponentView::Ops { code, .. } => code,
    }
}

/// Whether a component of type `code` holds bitmask operators (types 9,
/// TCP flags, and 12, fragment); the others hold numeric operators.
pub open spec fn is_bitmask_type(code: u8) -> bool {
    code == 9 || code == 12
}

/// The component that starts at `pos` and the position after it, or why
/// there is none (RFC 8955 §4.2.2, RFC 8956 §3).
pub open spec fn component_at(s: Seq<u8>, pos: int, afi: Afi) -> Result<
    (ComponentView, int),
    ParseError,
> {
    if !(0 <= pos < s.len()) {
        Err(ParseError::ShortInput)
    } else {
        let typ = s[pos];
        if typ == 1 || typ == 2 {
            if pos + 1 >= s.len() {
                Err(ParseError::ShortInput)
            } else {
                let bits = s[pos + 1];
                match afi {
                    Afi::Ipv4 => match prefix_at(s, pos + 2, afi, bits) {
                        Ok((p, e)) => Ok(
                            (
                                if typ == 1 {
                                    ComponentView::DestinationPrefix(p)
                                } else {
                                    ComponentView::SourcePrefix(p)
                                },
                                e,
                            ),
                        ),
                        Err(err) => Err(err),
                    },
                    Afi::Ipv6 => if pos + 2 >= s.len() {
                        Err(ParseError::ShortInput)
                    } else {
                        let offset = s[pos + 2];
                        match prefix_v6_at(s, pos + 3, bits, offset) {
                            Ok((p, e)) => Ok(
                                (
                                    if typ == 1 {
                                        ComponentView::DestinationPrefixV6 { prefix: p, offset }
                                    } else {
                                        ComponentView::SourcePrefixV6 { prefix: p, offset }
                                    },
                                    e,
                                ),
                            ),
                            Err(err) => Err(err),
                        }
                    },
                    _ => Err(ParseError::Form(FormError::IllegalAfi)),
                }
            }
        } else if (3 <= typ <= 12) || (typ == 13 && afi is Ipv6) {
            match op_list_end(s, pos + 1) {
                Some(e) => Ok((ComponentView::Ops { code: typ, bytes: s.subrange(pos + 1, e) }, e)),
                None => Err(ParseError::ShortInput),
            }
        } else if typ == 13 {
            Err(ParseError::Form(FormError::FlowLabelIpv6Only))
        } else {
            Err(ParseError::Unsupported)
        }
    }
}

/// The keyword that introduces an operator-list component in text.
pub open spec fn op_label(code: u8) -> Seq<char> {
    if code == 3 {
        "proto "@
    } else if code == 4 {
        "port "@
    } else if code == 5 {
        "dport "@
    } else if code == 6 {
        "sport "@
    } else if code == 7 {
        "icmp-type "@
    } else if code == 8 {
        "icmp-code "@
    } else if code == 9 {
        "tcp-flags "@
    } else if code == 10 {
        "pkt-len "@
    } else if code == 11 {
        "dscp "@
    } else if code == 12 {
        "frag "@
    } else {
        "flow-label "@
    }
}

/// The text of a component, such as "dst 10.0.1.0/24" or "proto =17".
pub open spec fn component_text(c: ComponentView) -> Seq<char> {
    match c {
        ComponentView::DestinationPrefix(p) => "dst "@ + prefix_text(p.0, p.1),
        ComponentView::SourcePrefix(p) => "src "@ + prefix_text(p.0, p.1),
        ComponentView::DestinationPrefixV6 { prefix, offset } => if offset == 0 {
            "dst "@ + prefix_text(prefix.0, prefix.1)
        } else {
            "dst "@ + prefix_text(prefix.0, prefix.1) + " offset "@ + dec_text(offset as nat)
        },
        ComponentView::SourcePrefixV6 { prefix, offset } => if offset == 0 {
            "src "@ + prefix_text(prefix.0, prefix.1)
        } else {
            "src "@ + prefix_text(prefix.0, prefix.1) + " offset "@ + dec_text(offset as nat)
        },
        ComponentView::Ops { code, bytes } => op_label(code) + ops_text(bytes, is_bitmask_type(code)),
    }
}

/// A component of a FlowSpec rule. The operator-list variants hold the raw
/// operator and value bytes.
#[derive(Clone, Debug)]
pub enum Component {
    DestinationPrefix(Prefix),
    SourcePrefix(Prefix),
    /// RFC 8956 type 1: IPv6 destination prefix with pattern offset.
    DestinationPrefixV6 { prefix: Prefix, offset: u8 },
    /// RFC 8956 type 2: IPv6 source prefix with pattern offset.
    SourcePrefixV6 { prefix: Prefix, offset: u8 },
    IpProtocol(Vec<u8>),
    Port(Vec<u8>),
    DestinationPort(Vec<u8>),
    SourcePort(Vec<u8>),
    IcmpType(Vec<u8>),
    IcmpCode(Vec<u8>),
    /// List of bitmask operators and values.
    TcpFlags(Vec<u8>),
    PacketLength(Vec<u8>),
    DSCP(Vec<u8>),
    /// List of bitmask operators and values.
    Fragment(Vec<u8>),
    /// RFC 8956 type 13 (IPv6 only): Flow Label, list of numeric ops.
    FlowLabel(Vec<u8>),
}

impl View for Component {
    type V = ComponentView;

    open spec fn view(&self) -> ComponentView {
        match self {
            Component::DestinationPrefix(p) => ComponentView::DestinationPrefix(p@),
            Component::SourcePrefix(p) => ComponentView::SourcePrefix(p@),
            Component::DestinationPrefixV6 { prefix, offset } => ComponentView::DestinationPrefixV6 {
                prefix: prefix@,
                offset: *offset,
            },
            Component::SourcePrefixV6 { prefix, offset } => ComponentView::SourcePrefixV6 {
                prefix: prefix@,
                offset: *offset,
            },
            Component::IpProtocol(o) => ComponentView::Ops { code: 3, bytes: o@ },
            Component::Port(o) => ComponentView::Ops { code: 4, bytes: o@ },
            Component::DestinationPort(o) => ComponentView::Ops { code: 5, bytes: o@ },
            Component::SourcePort(o) => ComponentView::Ops { code: 6, bytes: o@ },
            Component::IcmpType(o) => ComponentView::Ops { code: 7, bytes: o@ },
            Component::IcmpCode(o) => ComponentView::Ops { code: 8, bytes: o@ },
            Component::TcpFlags(o) => ComponentView::Ops { code: 9, bytes: o@ },
            Component::PacketLength(o) => ComponentView::Ops { code: 10, bytes: o@ },
            Component::DSCP(o) => ComponentView::Ops { code: 11, bytes: o@ },
            Component::Fragment(o) => ComponentView::Ops { code: 12, bytes: o@ },
            Component::FlowLabel(o) => ComponentView::Ops { code: 13, bytes: o@ },
        }
    }
}

/// The number of bytes that hold `bits` bits.
fn prefix_bits_to_bytes(bits: u8) -> (r: usize)
    ensures
        r == prefix_bytes(bits),
{
    if bits != 0 {
        (bits as usize - 1) / 8 + 1
    } else {
        0
    }
}

/// The big-endian value of `bytes` left-aligned in `width` bytes.
fn padded_be(bytes: &[u8], width: usize) -> (r: u128)
    requires
        bytes@.len() <= width <= 16,
    ensures
        r == padded_value(bytes@, width as nat),
        r < pow256(width as nat),
{
    let n = bytes.len();
    let ghost padded = zero_pad(bytes@, width as nat);
    let mut v: u128 = 0;
    let mut i: usize = 0;
    while i < width
        invariant
            i <= width <= 16,
            n == bytes@.len(),
            n <= width,
            padded == zero_pad(bytes@, width as nat),
            v == be_uint(padded.take(i as int)),
            v < pow256(i as nat),
        decreases width - i,
    {
        let b: u8 = if i < n {
            bytes[i]
        } else {
            0
        };
        proof {
            assert(padded[i as int] == b);
            assert(padded.take(i + 1) =~= padded.take(i as int).push(b));
            lemma_be_uint_push(padded.take(i as int), b);
            lemma_pow256_mono(i as nat, 15);
            reveal_with_fuel(pow256, 17);
            lemma_be_uint_bound(padded.take(i + 1));
            lemma_pow256_mono((i + 1) as nat, 16);
        }
        v = v * 256 + b as u128;
        i = i + 1;
    }
    proof {
        assert(padded.take(width as int) =~= padded);
    }
    v
}

/// Reads the address bytes of a prefix of `prefix_bits` bits.
fn parse_prefix(parser: &mut Parser, afi: Afi, prefix_bits: u8) -> (r: Result<Prefix, ParseError>)
    requires
        old(parser).wf(),
        afi is Ipv4 || afi is Ipv6,
    ensures
        final(parser).wf(),
        final(parser).data() == old(parser).data(),
        match r {
            Ok(p) => prefix_at(old(parser).data(), old(parser).position(), afi, prefix_bits) == Ok::<_, ParseError>(
                (p@, final(parser).position()),
            ),
            Err(e) => {
                &&& prefix_at(old(parser).data(), old(parser).position(), afi, prefix_bits)
                    == Err::<((Addr, u8), int), ParseError>(e)
                &&& e != ParseError::Form(FormError::PrefixParseFailed) ==> final(parser).position()
                    == old(parser).position()
                &&& e == ParseError::Form(FormError::PrefixParseFailed) ==> final(parser).position()
                    == old(parser).position() + prefix_bytes(prefix_bits)
            },
        },
{
    let prefix_bytes = prefix_bits_to_bytes(prefix_bits);
    match afi {
        Afi::Ipv4 => {
            if prefix_bytes == 0 {
                assert(((0u32 as u128) << 96u128) << (0u8 as u128) == 0u128) by (bit_vector);
                Prefix::new(Addr::V4(0), 0)
            } else if prefix_bytes >= 5 {
                Err(ParseError::Form(FormError::IllegalIpv4ByteSize))
            } else {
                let b = parser.peek(prefix_bytes)?;
                let v = padded_be(b, 4);
                parser.advance(prefix_bytes)?;
                proof {
                    reveal_with_fuel(pow256, 5);
                }
                Prefix::new(Addr::V4(v as u32), prefix_bits)
            }
        },
        _ => {
            if prefix_bytes == 0 {
                assert((0u128 << (0u8 as u128)) == 0u128) by (bit_vector);
                Prefix::new(Addr::V6(0), 0)
            } else if prefix_bytes >= 17 {
                Err(ParseError::Form(FormError::IllegalIpv6ByteSize))
            } else {
                let b = parser.peek(prefix_bytes)?;
                let v = padded_be(b, 16);
                parser.advance(prefix_bytes)?;
                Prefix::new(Addr::V6(v), prefix_bits)
            }
        },
    }
}

/// Reads an RFC 8956 §3.1 IPv6 prefix pattern, whose length and offset
/// have already been read: the pattern holds bits `[offset, length)` of the
/// address, left-packed into `ceil((length - offset) / 8)` bytes.
fn parse_prefix_v6(parser: &mut Parser, prefix_bits: u8, prefix_offset: u8) -> (r: Result<
    Prefix,
    ParseError,
>)
    requires
        old(parser).wf(),
    ensures
        final(parser).wf(),
        final(parser).data() == old(parser).data(),
        match r {
            Ok(p) => prefix_v6_at(
                old(parser).data(),
                old(parser).position(),
                prefix_bits,
                prefix_offset,
            ) == Ok::<_, ParseError>((p@, final(parser).position())),
            Err(e) => {
                &&& prefix_v6_at(
                    old(parser).data(),
                    old(parser).position(),
                    prefix_bits,
                    prefix_offset,
                ) == Err::<((Addr, u8), int), ParseError>(e)
                &&& e != ParseError::Form(FormError::PrefixParseFailed) ==> final(parser).position()
                    == old(parser).position()
                &&& e == ParseError::Form(FormError::PrefixParseFailed) ==> final(parser).position()
                    == old(parser).position() + prefix_bytes((prefix_bits - prefix_offset) as u8)
            },
        },
{
    if prefix_bits > 128 {
        return Err(ParseError::Form(FormError::Ipv6LengthTooLarge));
    }
    if prefix_offset > prefix_bits {
        return Err(ParseError::Form(FormError::Ipv6OffsetExceedsLength));
    }
    let pattern_bits = prefix_bits - prefix_offset;
    let pattern_bytes = prefix_bits_to_bytes(pattern_bits);
    if pattern_bytes > 16 {
        return Err(ParseError::Form(FormError::IllegalIpv6ByteSize));
    }
    let b = parser.peek(pattern_bytes)?;
    let v = padded_be(b, 16);
    parser.advance(pattern_bytes)?;
    // The pattern occupies the top bits; shift it down to start at bit
    // `prefix_offset` of the address. An offset of 128 leaves no pattern.
    let addr = if prefix_offset < 128 {
        v >> (prefix_offset as u128)
    } else {
        0
    };
    Prefix::new(Addr::V6(addr), prefix_bits)
}

impl Component {
    /// The RFC 8955/8956 component type code.
    pub fn type_code(&self) -> (r: u8)
        ensures
            r == type_code_of(self@),
    {
        match self {
            Component::DestinationPrefix(..) | Component::DestinationPrefixV6 { .. } => 1,
            Component::SourcePrefix(..) | Component::SourcePrefixV6 { .. } => 2,
            Component::IpProtocol(..) => 3,
            Component::Port(..) => 4,
            Component::DestinationPort(..) => 5,
            Component::SourcePort(..) => 6,
            Component::IcmpType(..) => 7,
            Component::IcmpCode(..) => 8,
            Component::TcpFlags(..) => 9,
            Component::PacketLength(..) => 10,
            Component::DSCP(..) => 11,
            Component::Fragment(..) => 12,
            Component::FlowLabel(..) => 13,
        }
    }

    /// The raw operator/value bytes for operator-list components; `None`
    /// for the prefix components (types 1 and 2).
    pub fn op_bytes(&self) -> (r: Option<&[u8]>)
        ensures
            match r {
                Some(s) => self@ matches ComponentView::Ops { bytes, .. } && s@ == bytes,
                None => !(self@ is Ops),
            },
    {
        match self {
            Component::DestinationPrefix(..)
            | Component::SourcePrefix(..)
            | Component::DestinationPrefixV6 { .. }
            | Component::SourcePrefixV6 { .. } => None,
            Component::IpProtocol(o)
            | Component::Port(o)
            | Component::DestinationPort(o)
            | Component::SourcePort(o)
            | Component::IcmpType(o)
            | Component::IcmpCode(o)
            | Component::TcpFlags(o)
            | Component::PacketLength(o)
            | Component::DSCP(o)
            | Component::Fragment(o)
            | Component::FlowLabel(o) => Some(o.as_slice()),
        }
    }

    /// Appends the text of the component.
    pub fn write_text(&self, out: &mut Vec<char>)
        ensures
            final(out)@ == old(out)@ + component_text(self@),
    {
        match self {
            Component::DestinationPrefix(p) => {
                push_str(out, "dst ");
                push_chars(out, &p.to_chars());
            },
            Component::SourcePrefix(p) => {
                push_str(out, "src ");
                push_chars(out, &p.to_chars());
            },
            Component::DestinationPrefixV6 { prefix, offset } => {
                push_str(out, "dst ");
                push_chars(out, &prefix.to_chars());
                if *offset != 0 {
                    push_str(out, " offset ");
                    push_decimal_u8(out, *offset);
                }
            },
            Component::SourcePrefixV6 { prefix, offset } => {
                push_str(out, "src ");
                push_chars(out, &prefix.to_chars());
                if *offset != 0 {
                    push_str(out, " offset ");
                    push_decimal_u8(out, *offset);
                }
            },
            Component::IpProtocol(o) => {
                push_str(out, "proto ");
                fmt_numeric_ops(o.as_slice(), out);
            },
            Component::Port(o) => {
                push_str(out, "port ");
                fmt_numeric_ops(o.as_slice(), out);
            },
            Component::DestinationPort(o) => {
                push_str(out, "dport ");
                fmt_numeric_ops(o.as_slice(), out);
            },
            Component::SourcePort(o) => {
                push_str(out, "sport ");
                fmt_numeric_ops(o.as_slice(), out);
            },
            Component::IcmpType(o) => {
                push_str(out, "icmp-type ");
                fmt_numeric_ops(o.as_slice(), out);
            },
            Component::IcmpCode(o) => {
                push_str(out, "icmp-code ");
                fmt_numeric_ops(o.as_slice(), out);
            },
            Component::TcpFlags(o) => {
                push_str(out, "tcp-flags ");
                fmt_bitmask_ops(o.as_slice(), out);
            },
            Component::PacketLength(o) => {
                push_str(out, "pkt-len ");
                fmt_numeric_ops(o.as_slice(), out);
            },
            Component::DSCP(o) => {
                push_str(out, "dscp ");
                fmt_numeric_ops(o.as_slice(), out);
            },
            Component::Fragment(o) => {
                push_str(out, "frag ");
                fmt_bitmask_ops(o.as_slice(), out);
            },
            Component::FlowLabel(o) => {
                push_str(out, "flow-label ");
                fmt_numeric_ops(o.as_slice(), out);
            },
        }
        proof {
            assert(final(out)@ =~= old(out)@ + component_text(self@));
        }
    }

    /// The component in text, such as "dst 10.0.1.0/24" or "port >=1024 && <=2048".
    pub fn to_string(&self) -> (s: String)
        ensures
            s@ == component_text(self@),
    {
        let mut out: Vec<char> = Vec::new();
        self.write_text(&mut out);
        chars_to_string(&out)
    }

    /// Reads one component for the address family `afi`.
    pub fn parse(parser: &mut Parser, afi: Afi) -> (r: Result<Component, ParseError>)
        requires
            old(parser).wf(),
        ensures
            final(parser).wf(),
            final(parser).data() == old(parser).data(),
            match r {
                Ok(c) => component_at(old(parser).data(), old(parser).position(), afi) == Ok::<_, ParseError>(
                    (c@, final(parser).position()),
                ),
                Err(e) => component_at(old(parser).data(), old(parser).position(), afi) == Err::<
                    (ComponentView, int),
                    ParseError,
                >(e),
            },
    {
        let typ = parser.parse_u8()?;
        let res = match typ {
            1 => {
                let prefix_bits = parser.parse_u8()?;
                match afi {
                    Afi::Ipv4 => {
                        let pfx = parse_prefix(parser, Afi::Ipv4, prefix_bits)?;
                        Component::DestinationPrefix(pfx)
                    },
                    Afi::Ipv6 => {
                        let offset = parser.parse_u8()?;
                        let prefix = parse_prefix_v6(parser, prefix_bits, offset)?;
                        Component::DestinationPrefixV6 { prefix, offset }
                    },
                    _ => {
                        return Err(ParseError::Form(FormError::IllegalAfi));
                    },
                }
            },
            2 => {
                let prefix_bits = parser.parse_u8()?;
                match afi {
                    Afi::Ipv4 => {
                        let pfx = parse_prefix(parser, Afi::Ipv4, prefix_bits)?;
                        Component::SourcePrefix(pfx)
                    },
                    Afi::Ipv6 => {
                        let offset = parser.parse_u8()?;
                        let prefix = parse_prefix_v6(parser, prefix_bits, offset)?;
                        Component::SourcePrefixV6 { prefix, offset }
                    },
                    _ => {
                        return Err(ParseError::Form(FormError::IllegalAfi));
                    },
                }
            },
            3 => Component::IpProtocol(parse_numeric_op_octets(parser)?),
            4 => Component::Port(parse_numeric_op_octets(parser)?),
            5 => Component::DestinationPort(parse_numeric_op_octets(parser)?),
            6 => Component::SourcePort(parse_numeric_op_octets(parser)?),
            7 => Component::IcmpType(parse_numeric_op_octets(parser)?),
            8 => Component::IcmpCode(parse_numeric_op_octets(parser)?),
            9 => Component::TcpFlags(parse_bitmask_op_octets(parser)?),
            10 => Component::PacketLength(parse_numeric_op_octets(parser)?),
            11 => Component::DSCP(parse_numeric_op_octets(parser)?),
            12 => Component::Fragment(parse_bitmask_op_octets(parser)?),
            13 => {
                match afi {
                    Afi::Ipv6 => {},
                    _ => {
                        return Err(ParseError::Form(FormError::FlowLabelIpv6Only));
                    },
                }
                Component::FlowLabel(parse_numeric_op_octets(parser)?)
            },
            _ => {
                return Err(ParseError::Unsupported);
            },
        };
        Ok(res)
    }
}

} // verus!
