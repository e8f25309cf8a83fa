use vstd::prelude::*;
use crate::afi::Afi;
use crate::component::{component_at, component_text, Component, ComponentView};
use crate::text::{chars_to_string, hex_bytes, push_hex_bytes, push_str};
use vstd::std_specs::cmp::PartialEqSpecImpl;
use crate::error::{FormError, ParseError};
use crate::ops::lemma_op_list_end_bounds;
use crate::parser::Parser;
use crate::prefix::{Addr, Prefix};

verus! {

/// A component that parses ends after it starts, within the bytes.
pub proof fn lemma_component_at_advances(s: Seq<u8>, pos: int, afi: Afi)
    ensures
        component_at(s, pos, afi) matches Ok((_, e)) ==> pos < e <= s.len(),
{
    if 0 <= pos < s.len() {
        lemma_op_list_end_bounds(s, pos + 1);
    }
}

/// The length of an NLRI and where its bytes start, for the length field
/// at `pos`: one byte below 0xf0, else twelve bits over two bytes.
pub open spec fn nlri_len_at(s: Seq<u8>, pos: int) -> Option<(int, int)> {
    if !(0 <= pos < s.len()) {
        None
    } else if s[pos] >= 0xf0 {
        if pos + 1 >= s.len() {
            None
        } else {
            Some(((s[pos] % 16) * 256 + s[pos + 1], pos + 2))
        }
    } else {
        Some((s[pos] as int, pos + 1))
    }
}

/// Reads components from `pos` on while the position is below `end`; the
/// first failure, if any. A component may run past `end`.
pub open spec fn components_ok(s: Seq<u8>, pos: int, end: int, afi: Afi) -> Result<
    (),
    ParseError,
>
    decreases s.len() - pos,
{
    if pos >= end {
        Ok(())
    } else {
        match component_at(s, pos, afi) {
            Err(e) => Err(e),
            Ok((_, next)) => {
                proof {
                    lemma_component_at_advances(s, pos, afi);
                }
                components_ok(s, next, end, afi)
            },
        }
    }
}

/// The bytes of the FlowSpec NLRI whose length field is at `pos`, and the
/// position after it, or why it is refused (RFC 8955 §4).
pub open spec fn nlri_at(s: Seq<u8>, pos: int, afi: Afi) -> Result<(Seq<u8>, int), ParseError> {
    match nlri_len_at(s, pos) {
        None => Err(ParseError::ShortInput),
        Some((len, start)) => {
            if len > s.len() - start {
                Err(ParseError::Form(FormError::InvalidNlriLength))
            } else if !(afi is Ipv4 || afi is Ipv6) {
                Err(ParseError::Form(FormError::IllegalAfi))
            } else {
                match components_ok(s, start, start + len, afi) {
                    Err(e) => Err(e),
                    Ok(()) => Ok((s.subrange(start, start + len), start + len)),
                }
            }
        },
    }
}

/// The components read one after the other from `pos` to the end of `s`,
/// and the failure that stopped the reading, if one did.
pub open spec fn components_from(s: Seq<u8>, pos: int, afi: Afi) -> (
    Seq<ComponentView>,
    Option<ParseError>,
)
    decreases s.len() - pos,
{
    if pos >= s.len() {
        (Seq::empty(), None)
    } else {
        match component_at(s, pos, afi) {
            Err(e) => (Seq::empty(), Some(e)),
            Ok((c, next)) => {
                proof {
                    lemma_component_at_advances(s, pos, afi);
                }
                let rest = components_from(s, next, afi);
                (seq![c] + rest.0, rest.1)
            },
        }
    }
}

/// The components of an NLRI's bytes, and the failure that ended them early.
pub open spec fn components_of(raw: Seq<u8>, afi: Afi) -> (Seq<ComponentView>, Option<ParseError>) {
    components_from(raw, 0, afi)
}

/// The destination prefix usable as an index key: that of the first
/// destination-prefix component when it has no pattern offset.
pub open spec fn first_dst(cs: Seq<ComponentView>) -> Option<(Addr, u8)>
    decreases cs.len(),
{
    if cs.len() == 0 {
        None
    } else {
        match cs[0] {
            ComponentView::DestinationPrefix(p) => Some(p),
            ComponentView::DestinationPrefixV6 { prefix, offset } => if offset == 0 {
                Some(prefix)
            } else {
                None
            },
            _ => first_dst(cs.drop_first()),
        }
    }
}

/// The bytes that announce an NLRI of `len` bytes: one byte below 240,
/// else two bytes `0xfnnn`, the length saturating at 4095 beyond 65535.
pub open spec fn compose_header(len: nat) -> Seq<u8> {
    if len >= 240 {
        let v: u16 = 0xf000u16 | (if len <= 0xffff {
            len as u16
        } else {
            4095u16
        });
        seq![(v >> 8u16) as u8, (v & 0xffu16) as u8]
    } else {
        seq![len as u8]
    }
}

/// The text of the components from `pos` on, separated by ", "; when one
/// fails to parse, all the bytes in hexadecimal within "flowspec-raw(...)";
/// "flowspec-empty" when there are none at all.
pub open spec fn nlri_text_from(raw: Seq<u8>, pos: int, first: bool, afi: Afi) -> Seq<char>
    decreases raw.len() - pos,
{
    let sep = if first {
        Seq::empty()
    } else {
        ", "@
    };
    if pos >= raw.len() {
        if first {
            "flowspec-empty"@
        } else {
            Seq::empty()
        }
    } else {
        match component_at(raw, pos, afi) {
            Ok((c, next)) => {
                proof {
                    lemma_component_at_advances(raw, pos, afi);
                }
                sep + component_text(c) + nlri_text_from(raw, next, false, afi)
            },
            Err(_) => sep + "flowspec-raw("@ + hex_bytes(raw) + ")"@,
        }
    }
}

/// The text of an NLRI.
pub open spec fn nlri_text(n: NlriView) -> Seq<char> {
    nlri_text_from(n.raw, 0, true, n.afi)
}

/// An NLRI as its family and bytes.
pub struct NlriView {
    pub afi: Afi,
    pub raw: Seq<u8>,
}

/// NLRI containing a FlowSpec v1 specification.
#[derive(Clone, Debug, Hash)]
pub struct FlowSpecNlri {
    afi: Afi,
    raw: Vec<u8>,
}

impl View for FlowSpecNlri {
    type V = NlriView;

    closed spec fn view(&self) -> NlriView {
        NlriView { afi: self.afi, raw: self.raw@ }
    }
}

impl FlowSpecNlri {
    /// An NLRI from its family and bytes, as stored, without reading them.
    pub fn from_parts(afi: Afi, raw: Vec<u8>) -> (r: FlowSpecNlri)
        ensures
            r@.afi == afi,
            r@.raw == raw@,
    {
        FlowSpecNlri { afi, raw }
    }

    /// The bytes of the NLRI, without the length field.
    pub fn raw(&self) -> (r: &[u8])
        ensures
            r@ == self@.raw,
    {
        self.raw.as_slice()
    }

    /// The address family.
    pub fn afi(&self) -> (r: Afi)
        ensures
            r == self@.afi,
    {
        self.afi
    }

    /// A copy with its own bytes.
    pub fn to_owned_octets(&self) -> (r: FlowSpecNlri)
        ensures
            r@ == self@,
    {
        FlowSpecNlri { afi: self.afi, raw: vstd::slice::slice_to_vec(self.raw.as_slice()) }
    }

    /// Iterate over the typed components of this NLRI.
    ///
    /// Iteration stops after the first component that fails to parse; that
    /// failure is yielded as the final `Err` item.
    pub fn components(&self) -> (r: ComponentIter<'_>)
        ensures
            r.wf(),
            r.items() == components_of(self@.raw, self@.afi),
    {
        ComponentIter { parser: Parser::from_ref(self.raw.as_slice()), afi: self.afi, errored: false }
    }

    /// The destination-prefix component (type 1) usable as an index key:
    /// present for IPv4, or for IPv6 when the pattern offset is 0. `None`
    /// when the component is absent, offset-anchored, or the NLRI is
    /// malformed.
    pub fn dst_prefix(&self) -> (r: Option<Prefix>)
        ensures
            components_of(self@.raw, self@.afi).1 is Some ==> r is None,
            components_of(self@.raw, self@.afi).1 is None ==> match r {
                Some(p) => first_dst(components_of(self@.raw, self@.afi).0) == Some(p@),
                None => first_dst(components_of(self@.raw, self@.afi).0) is None,
            },
    {
        let mut it = self.components();
        let ghost all = components_of(self@.raw, self@.afi);
        let mut found: Option<Prefix> = None;
        let mut decided = false;
        loop
            invariant
                it.wf(),
                all == components_of(self@.raw, self@.afi),
                it.items().1 == all.1,
                decided ==> match found {
                    Some(p) => first_dst(all.0) == Some(p@),
                    None => first_dst(all.0) is None,
                },
                !decided ==> found is None && first_dst(it.items().0) == first_dst(all.0),
            decreases it.items().0.len(),
        {
            let ghost before = it.items().0;
            match it.next() {
                None => {
                    return found;
                },
                Some(Ok(c)) => {
                    if !decided {
                        match c {
                            Component::DestinationPrefix(p) => {
                                found = Some(p);
                                decided = true;
                            },
                            Component::DestinationPrefixV6 { prefix, offset } => {
                                if offset == 0 {
                                    found = Some(prefix);
                                }
                                decided = true;
                            },
                            _ => {
                                assert(first_dst(before) == first_dst(before.drop_first()));
                            },
                        }
                    }
                },
                Some(Err(_)) => {
                    return None;
                },
            }
        }
    }

    /// Reads a FlowSpec NLRI, with its length field, for the family `afi`.
    /// Every component within the announced length must parse.
    pub fn parse(parser: &mut Parser, afi: Afi) -> (r: Result<FlowSpecNlri, ParseError>)
        requires
            old(parser).wf(),
        ensures
            final(parser).wf(),
            final(parser).data() == old(parser).data(),
            match r {
                Ok(n) => {
                    &&& n@.afi == afi
                    &&& nlri_at(old(parser).data(), old(parser).position(), afi) == Ok::<
                        _,
                        ParseError,
                    >((n@.raw, final(parser).position()))
                },
                Err(e) => nlri_at(old(parser).data(), old(parser).position(), afi) == Err::<
                    (Seq<u8>, int),
                    ParseError,
                >(e),
            },
    {
        let ghost data = parser.data();
        let ghost start = parser.position();
        let len1 = parser.parse_u8()?;
        let len: u16 = if len1 >= 0xf0 {
            let len2 = parser.parse_u8()? as u16;
            assert((((len1 as u16) << 8u16) | len2) & 0x0fffu16 == (len1 % 16) as u16 * 256 + len2)
                by (bit_vector)
                requires
                    len2 < 256,
            ;
            (((len1 as u16) << 8) | len2) & 0x0fff
        } else {
            len1 as u16
        };
        let pos = parser.pos();
        if len as usize > parser.remaining() {
            return Err(ParseError::Form(FormError::InvalidNlriLength));
        }
        let end = pos + len as usize;
        match afi {
            Afi::Ipv4 | Afi::Ipv6 => {
                while parser.pos() < end
                    invariant
                        parser.wf(),
                        parser.data() == data,
                        data == old(parser).data(),
                        start == old(parser).position(),
                        nlri_len_at(data, start) == Some((len as int, pos as int)),
                        len <= data.len() - pos,
                        afi is Ipv4 || afi is Ipv6,
                        end == pos + len,
                        end <= data.len(),
                        pos <= parser.position(),
                        components_ok(data, pos as int, end as int, afi) == components_ok(
                            data,
                            parser.position(),
                            end as int,
                            afi,
                        ),
                    decreases data.len() - parser.position(),
                {
                    proof {
                        lemma_component_at_advances(data, parser.position(), afi);
                    }
                    Component::parse(parser, afi)?;
                }
            },
            _ => {
                return Err(ParseError::Form(FormError::IllegalAfi));
            },
        }
        parser.seek(pos)?;
        let raw = parser.parse_octets(len as usize)?;
        Ok(FlowSpecNlri { afi, raw })
    }

    /// The rule in text, such as "dst 10.0.1.0/24, proto =17, dport =53".
    /// Never fails on hostile bytes: those fall back to hexadecimal.
    pub fn to_string(&self) -> (s: String)
        ensures
            s@ == nlri_text(self@),
    {
        let raw = self.raw.as_slice();
        let mut parser = Parser::from_ref(raw);
        let mut first = true;
        let mut out: Vec<char> = Vec::new();
        while parser.remaining() > 0
            invariant
                parser.wf(),
                parser.data() == raw@,
                raw@ == self@.raw,
                out@ + nlri_text_from(raw@, parser.position(), first, self.afi) == nlri_text(self@),
            decreases raw@.len() - parser.position(),
        {
            let ghost pos = parser.position();
            let ghost before = out@;
            let ghost was_first = first;
            proof {
                lemma_component_at_advances(raw@, pos, self.afi);
            }
            match Component::parse(&mut parser, self.afi) {
                Ok(c) => {
                    if !first {
                        push_str(&mut out, ", ");
                    }
                    first = false;
                    c.write_text(&mut out);
                    proof {
                        assert(out@ + nlri_text_from(raw@, parser.position(), first, self.afi) =~= before
                            + nlri_text_from(raw@, pos, was_first, self.afi));
                    }
                },
                Err(_) => {
                    if !first {
                        push_str(&mut out, ", ");
                    }
                    push_str(&mut out, "flowspec-raw(");
                    push_hex_bytes(&mut out, raw);
                    push_str(&mut out, ")");
                    proof {
                        assert(out@ =~= before + nlri_text_from(raw@, pos, was_first, self.afi));
                    }
                    return chars_to_string(&out);
                },
            }
        }
        if first {
            push_str(&mut out, "flowspec-empty");
        }
        chars_to_string(&out)
    }

    /// The number of bytes of the NLRI, without the length field.
    pub fn compose_len(&self) -> (r: usize)
        ensures
            r == self@.raw.len(),
    {
        self.raw.len()
    }

    /// Appends the length field and the bytes of the NLRI to `target`.
    pub fn compose(&self, target: &mut Vec<u8>)
        ensures
            final(target)@ == old(target)@ + compose_header(self@.raw.len()) + self@.raw,
    {
        // The length is a single byte below 240, or 1.5 bytes with the
        // first nibble set to 0xf: 0xfnnn, so at most 4095.
        let len = self.raw.len();
        if len >= 240 {
            let l: u16 = if len <= 0xffff {
                len as u16
            } else {
                4095
            };
            let v: u16 = 0xf000 | l;
            target.push((v >> 8) as u8);
            target.push((v & 0xff) as u8);
        } else {
            target.push(len as u8);
        }
        let ghost with_header = target@;
        let mut i: usize = 0;
        while i < len
            invariant
                i <= len,
                len == self.raw@.len(),
                target@ == with_header + self.raw@.take(i as int),
            decreases len - i,
        {
            proof {
                assert(self.raw@.take(i + 1) =~= self.raw@.take(i as int).push(self.raw@[i as int]));
            }
            target.push(self.raw[i]);
            i = i + 1;
        }
        proof {
            assert(self.raw@.take(len as int) =~= self.raw@);
            assert(with_header =~= old(target)@ + compose_header(self@.raw.len()));
        }
    }
}

/// Whether two byte strings are equal.
fn bytes_equal(x: &[u8], y: &[u8]) -> (r: bool)
    ensures
        r == (x@ == y@),
{
    if x.len() != y.len() {
        return false;
    }
    let n = x.len();
    let mut i: usize = 0;
    while i < n
        invariant
            i <= n,
            n == x@.len(),
            n == y@.len(),
            x@.take(i as int) == y@.take(i as int),
        decreases n - i,
    {
        if x[i] != y[i] {
            proof {
                assert(x@[i as int] != y@[i as int]);
            }
            return false;
        }
        proof {
            assert(x@.take(i + 1) =~= x@.take(i as int).push(x@[i as int]));
            assert(y@.take(i + 1) =~= y@.take(i as int).push(y@[i as int]));
        }
        i = i + 1;
    }
    proof {
        assert(x@.take(n as int) =~= x@);
        assert(y@.take(n as int) =~= y@);
    }
    true
}

impl PartialEq for FlowSpecNlri {
    /// Same family and same bytes.
    fn eq(&self, other: &FlowSpecNlri) -> (r: bool) {
        self.afi == other.afi && bytes_equal(self.raw.as_slice(), other.raw.as_slice())
    }
}

impl PartialEqSpecImpl for FlowSpecNlri {
    open spec fn obeys_eq_spec() -> bool {
        true
    }

    open spec fn eq_spec(&self, other: &FlowSpecNlri) -> bool {
        self@.afi == other@.afi && self@.raw == other@.raw
    }
}

impl Eq for FlowSpecNlri {

}

/// Iterator over the [`Component`]s of a [`FlowSpecNlri`].
pub struct ComponentIter<'a> {
    parser: Parser<'a>,
    afi: Afi,
    errored: bool,
}

impl<'a> ComponentIter<'a> {
    /// The parser is in a usable state.
    pub closed spec fn wf(&self) -> bool {
        self.parser.wf()
    }

    /// The components still to come, and the failure that will follow them.
    pub closed spec fn items(&self) -> (Seq<ComponentView>, Option<ParseError>) {
        if self.errored {
            (Seq::empty(), None)
        } else {
            components_from(self.parser.data(), self.parser.position(), self.afi)
        }
    }

    /// The next component, or the failure that ends the iteration, after
    /// which there is nothing more.
    pub fn next(&mut self) -> (r: Option<Result<Component, ParseError>>)
        requires
            old(self).wf(),
        ensures
            final(self).wf(),
            match r {
                None => {
                    &&& old(self).items().0.len() == 0
                    &&& old(self).items().1 is None
                    &&& final(self).items() == old(self).items()
                },
                Some(Ok(c)) => {
                    &&& old(self).items().0.len() > 0
                    &&& c@ == old(self).items().0[0]
                    &&& final(self).items() == (
                        old(self).items().0.drop_first(),
                        old(self).items().1,
                    )
                },
                Some(Err(e)) => {
                    &&& old(self).items().0.len() == 0
                    &&& old(self).items().1 == Some(e)
                    &&& final(self).items().0.len() == 0
                    &&& final(self).items().1 is None
                },
            },
    {
        if self.errored || self.parser.remaining() == 0 {
            return None;
        }
        let ghost data = self.parser.data();
        let ghost pos = self.parser.position();
        match Component::parse(&mut self.parser, self.afi) {
            Ok(c) => {
                proof {
                    lemma_component_at_advances(data, pos, self.afi);
                    let rest = components_from(data, self.parser.position(), self.afi);
                    assert((seq![c@] + rest.0).drop_first() =~= rest.0);
                }
                Some(Ok(c))
            },
            Err(e) => {
                self.errored = true;
                Some(Err(e))
            },
        }
    }
}

} // verus!
