use vstd::prelude::*;
use std::cmp::Ordering;
use crate::component::{type_code_of, Component, ComponentView};
use crate::nlri::{components_of, FlowSpecNlri, NlriView};
use vstd::std_specs::cmp::PartialOrdSpecImpl;
use crate::prefix::{addr_bits, Addr, Prefix};

verus! {

/// -1, 0 or 1 as `x` is below, equal to or above `y`.
pub open spec fn int_order(x: int, y: int) -> int {
    if x < y {
        -1
    } else if x == y {
        0
    } else {
        1
    }
}

/// `int_order` on bytes.
pub open spec fn u8_order(x: u8, y: u8) -> int {
    int_order(x as int, y as int)
}

/// `int_order` on 128-bit values.
pub open spec fn u128_order(x: u128, y: u128) -> int {
    int_order(x as int, y as int)
}

/// Lexicographic order of byte strings, a proper prefix first.
pub open spec fn lex_order(x: Seq<u8>, y: Seq<u8>) -> int
    decreases x.len(),
{
    if x.len() == 0 {
        if y.len() == 0 {
            0
        } else {
            -1
        }
    } else if y.len() == 0 {
        1
    } else if x[0] < y[0] {
        -1
    } else if x[0] > y[0] {
        1
    } else {
        lex_order(x.drop_first(), y.drop_first())
    }
}

/// The mask of the first `common` of 128 bits.
pub open spec fn mask_of(common: u8) -> u128 {
    if common == 0 {
        0
    } else {
        (!0u128) << ((128 - common) as u128)
    }
}

/// The shorter of two lengths.
pub open spec fn min_len(x: u8, y: u8) -> u8 {
    if x < y {
        x
    } else {
        y
    }
}

/// RFC 8955 §5.1 order of prefix components (RFC 8956 §5.1 for offsets):
/// lowest offset first; then lowest value of the bits both prefixes cover;
/// then the longest (most specific) prefix first.
pub open spec fn prefix_order(pa: (Addr, u8), oa: u8, pb: (Addr, u8), ob: u8) -> int {
    if oa != ob {
        u8_order(oa, ob)
    } else {
        let m = mask_of(min_len(pa.1, pb.1));
        let o = u128_order(addr_bits(pa.0) & m, addr_bits(pb.0) & m);
        if o != 0 {
            o
        } else {
            u8_order(pb.1, pa.1)
        }
    }
}

/// RFC 8955 §5.1 order of operator lists: lowest bytes first over the part
/// both have; when that part is equal, the longest list first.
pub open spec fn op_order(x: Seq<u8>, y: Seq<u8>) -> int {
    let c = if x.len() < y.len() {
        x.len()
    } else {
        y.len()
    };
    let o = lex_order(x.take(c as int), y.take(c as int));
    if o != 0 {
        o
    } else {
        int_order(y.len() as int, x.len() as int)
    }
}

/// The operator bytes of a component; empty for a prefix.
pub open spec fn ops_of(c: ComponentView) -> Seq<u8> {
    match c {
        ComponentView::Ops { bytes, .. } => bytes,
        _ => Seq::empty(),
    }
}

/// The order of two components of the same type.
pub open spec fn component_order(x: ComponentView, y: ComponentView) -> int {
    match (x, y) {
        (ComponentView::DestinationPrefix(pa), ComponentView::DestinationPrefix(pb)) => prefix_order(
            pa,
            0,
            pb,
            0,
        ),
        (ComponentView::SourcePrefix(pa), ComponentView::SourcePrefix(pb)) => prefix_order(
            pa,
            0,
            pb,
            0,
        ),
        (
            ComponentView::DestinationPrefixV6 { prefix: pa, offset: oa },
            ComponentView::DestinationPrefixV6 { prefix: pb, offset: ob },
        ) => prefix_order(pa, oa, pb, ob),
        (
            ComponentView::SourcePrefixV6 { prefix: pa, offset: oa },
            ComponentView::SourcePrefixV6 { prefix: pb, offset: ob },
        ) => prefix_order(pa, oa, pb, ob),
        _ => op_order(ops_of(x), ops_of(y)),
    }
}

/// The order of two rules given the components each still has, whether a
/// failure follows them, and the order of the raw bytes to fall back on.
/// A rule that runs out of components while the other has one comes after
/// it (end of list counts as type infinity).
pub open spec fn order_rest(
    ca: Seq<ComponentView>,
    ea: bool,
    cb: Seq<ComponentView>,
    eb: bool,
    raw: int,
) -> int
    decreases ca.len(),
{
    let a_ok = ca.len() > 0;
    let b_ok = cb.len() > 0;
    let a_none = !a_ok && !ea;
    let b_none = !b_ok && !eb;
    if a_none && b_none {
        0
    } else if a_ok && b_none {
        -1
    } else if a_none && b_ok {
        1
    } else if !a_ok || !b_ok {
        raw
    } else {
        let t = u8_order(type_code_of(ca[0]), type_code_of(cb[0]));
        if t != 0 {
            t
        } else {
            let o = component_order(ca[0], cb[0]);
            if o != 0 {
                o
            } else {
                order_rest(ca.drop_first(), ea, cb.drop_first(), eb, raw)
            }
        }
    }
}

/// RFC 8955 §5.1 (as updated by RFC 8956 §5.1) order of traffic filtering
/// rules, as -1, 0 or 1: -1 means `a` has precedence over `b`. Falls back
/// to the order of the raw bytes when a component of either fails to parse.
pub open spec fn rfc8955_order(a: NlriView, b: NlriView) -> int {
    let (ca, ea) = components_of(a.raw, a.afi);
    let (cb, eb) = components_of(b.raw, b.afi);
    order_rest(ca, ea is Some, cb, eb is Some, lex_order(a.raw, b.raw))
}

/// An ordering as -1, 0 or 1.
pub open spec fn ord_value(o: Ordering) -> int {
    match o {
        Ordering::Less => -1,
        Ordering::Equal => 0,
        Ordering::Greater => 1,
    }
}

/// The ordering that the sign of `v` stands for.
pub open spec fn ord_from_value(v: int) -> Ordering {
    if v < 0 {
        Ordering::Less
    } else if v == 0 {
        Ordering::Equal
    } else {
        Ordering::Greater
    }
}

/// An ordering is determined by its value.
proof fn lemma_ord_value_inverse(o: Ordering)
    ensures
        ord_from_value(ord_value(o)) == o,
{
}

/// The ordering that -1, 0 or 1 stands for.
fn ordering_of_sign(v: i8) -> (r: Ordering)
    requires
        -1 <= v <= 1,
    ensures
        ord_value(r) == v,
{
    if v < 0 {
        Ordering::Less
    } else if v == 0 {
        Ordering::Equal
    } else {
        Ordering::Greater
    }
}

/// Orders two bytes.
fn order_of_u8(x: u8, y: u8) -> (r: Ordering)
    ensures
        ord_value(r) == u8_order(x, y),
{
    if x < y {
        Ordering::Less
    } else if x == y {
        Ordering::Equal
    } else {
        Ordering::Greater
    }
}

/// Orders two 128-bit values.
fn order_of_u128(x: u128, y: u128) -> (r: Ordering)
    ensures
        ord_value(r) == u128_order(x, y),
{
    if x < y {
        Ordering::Less
    } else if x == y {
        Ordering::Equal
    } else {
        Ordering::Greater
    }
}

/// Lexicographic order of two byte strings as -1, 0 or 1.
fn lex_sign(x: &[u8], y: &[u8]) -> (r: i8)
    ensures
        r == lex_order(x@, y@),
        -1 <= r <= 1,
{
    let n = x.len();
    let m = y.len();
    let mut i: usize = 0;
    proof {
        assert(x@.skip(0) =~= x@);
        assert(y@.skip(0) =~= y@);
    }
    while i < n && i < m
        invariant
            i <= n,
            i <= m,
            n == x@.len(),
            m == y@.len(),
            lex_order(x@, y@) == lex_order(x@.skip(i as int), y@.skip(i as int)),
        decreases n - i,
    {
        if x[i] < y[i] {
            return -1;
        } else if x[i] > y[i] {
            return 1;
        }
        proof {
            assert(x@.skip(i as int).drop_first() =~= x@.skip(i + 1));
            assert(y@.skip(i as int).drop_first() =~= y@.skip(i + 1));
        }
        i = i + 1;
    }
    if i < n {
        1
    } else if i < m {
        -1
    } else {
        0
    }
}

/// Orders the lengths of two operator lists, the longer first, as -1, 0 or 1.
fn longer_first(x: usize, y: usize) -> (r: i8)
    ensures
        r == int_order(y as int, x as int),
        -1 <= r <= 1,
{
    if y < x {
        -1
    } else if y == x {
        0
    } else {
        1
    }
}

/// RFC 8955 §5.1 order of two operator lists, as -1, 0 or 1.
fn op_sign(x: &[u8], y: &[u8]) -> (r: i8)
    ensures
        r == op_order(x@, y@),
        -1 <= r <= 1,
{
    let common = if x.len() < y.len() {
        x.len()
    } else {
        y.len()
    };
    let o = lex_sign(
        vstd::slice::slice_subrange(x, 0, common),
        vstd::slice::slice_subrange(y, 0, common),
    );
    proof {
        assert(x@.subrange(0, common as int) =~= x@.take(common as int));
        assert(y@.subrange(0, common as int) =~= y@.take(common as int));
    }
    if o != 0 {
        o
    } else {
        longer_first(x.len(), y.len())
    }
}

/// Orders the raw bytes of two rules.
fn raw_order(x: &[u8], y: &[u8]) -> (r: Ordering)
    ensures
        ord_value(r) == lex_order(x@, y@),
        r == ord_from_value(lex_order(x@, y@)),
{
    let r = ordering_of_sign(lex_sign(x, y));
    proof {
        lemma_ord_value_inverse(r);
    }
    r
}

/// The mask of the first `common` of 128 bits.
fn common_mask(common: u8) -> (r: u128)
    requires
        common <= 128,
    ensures
        r == mask_of(common),
{
    if common == 0 {
        0u128
    } else {
        !0u128 << (128 - common as u128)
    }
}

/// RFC 8955 §5.1 order of two prefix components with pattern offsets.
fn prefix_cmp_8955(pa: &Prefix, oa: u8, pb: &Prefix, ob: u8) -> (r: Ordering)
    ensures
        ord_value(r) == prefix_order(pa@, oa, pb@, ob),
{
    // RFC 8956 §5.1: lowest offset has precedence.
    match order_of_u8(oa, ob) {
        Ordering::Equal => {},
        other => {
            return other;
        },
    }
    let la = pa.len();
    let lb = pb.len();
    let common = if la < lb {
        la
    } else {
        lb
    };
    let mask = common_mask(common);
    match order_of_u128(pa.bits() & mask, pb.bits() & mask) {
        // Common bits equal: longest (most specific) prefix has precedence.
        Ordering::Equal => order_of_u8(lb, la),
        // Not equal: lowest IP value has precedence.
        other => other,
    }
}

/// RFC 8955 §5.1 order of two components of the same type.
fn component_order_exec(ca: &Component, cb: &Component) -> (r: Ordering)
    ensures
        ord_value(r) == component_order(ca@, cb@),
{
    match (ca, cb) {
        (Component::DestinationPrefix(pa), Component::DestinationPrefix(pb)) => prefix_cmp_8955(
            pa,
            0,
            pb,
            0,
        ),
        (Component::SourcePrefix(pa), Component::SourcePrefix(pb)) => prefix_cmp_8955(
            pa,
            0,
            pb,
            0,
        ),
        (
            Component::DestinationPrefixV6 { prefix: pa, offset: oa },
            Component::DestinationPrefixV6 { prefix: pb, offset: ob },
        ) => prefix_cmp_8955(pa, *oa, pb, *ob),
        (
            Component::SourcePrefixV6 { prefix: pa, offset: oa },
            Component::SourcePrefixV6 { prefix: pb, offset: ob },
        ) => prefix_cmp_8955(pa, *oa, pb, *ob),
        _ => {
            // Same non-prefix type: both have op bytes.
            let empty: Vec<u8> = Vec::new();
            let x = match ca.op_bytes() {
                Some(s) => s,
                None => empty.as_slice(),
            };
            let y = match cb.op_bytes() {
                Some(s) => s,
                None => empty.as_slice(),
            };
            proof {
                assert(x@ == ops_of(ca@));
                assert(y@ == ops_of(cb@));
            }
            ordering_of_sign(op_sign(x, y))
        },
    }
}

/// RFC 8955 §5.1 (as updated by RFC 8956 §5.1) order of traffic filtering
/// rules. `Ordering::Less` means `a` has precedence over (sorts before) `b`.
///
/// Falls back to a plain byte-wise comparison of the raw NLRI if either NLRI
/// fails to parse.
pub fn rfc8955_cmp(a: &FlowSpecNlri, b: &FlowSpecNlri) -> (r: Ordering)
    ensures
        ord_value(r) == rfc8955_order(a@, b@),
{
    let mut ia = a.components();
    let mut ib = b.components();
    loop
        invariant
            ia.wf(),
            ib.wf(),
            order_rest(
                ia.items().0,
                ia.items().1 is Some,
                ib.items().0,
                ib.items().1 is Some,
                lex_order(a@.raw, b@.raw),
            ) == rfc8955_order(a@, b@),
        decreases ia.items().0.len(),
    {
        let xa = ia.next();
        let xb = ib.next();
        match (xa, xb) {
            (None, None) => {
                return Ordering::Equal;
            },
            // End-of-list counts as component type infinity: the rule that
            // still has components has the lower type, hence precedence.
            (Some(Ok(_)), None) => {
                return Ordering::Less;
            },
            (None, Some(Ok(_))) => {
                return Ordering::Greater;
            },
            (Some(Err(_)), _) | (_, Some(Err(_))) => {
                return raw_order(a.raw(), b.raw());
            },
            (Some(Ok(ca)), Some(Ok(cb))) => {
                match order_of_u8(ca.type_code(), cb.type_code()) {
                    Ordering::Equal => {},
                    // Lowest component type has precedence.
                    other => {
                        return other;
                    },
                }
                match component_order_exec(&ca, &cb) {
                    Ordering::Equal => {},
                    other => {
                        return other;
                    },
                }
            },
        }
    }
}

impl PartialOrd for FlowSpecNlri {
    /// The order of the raw bytes.
    fn partial_cmp(&self, other: &FlowSpecNlri) -> (r: Option<Ordering>) {
        Some(raw_order(self.raw(), other.raw()))
    }
}

impl PartialOrdSpecImpl for FlowSpecNlri {
    open spec fn obeys_partial_cmp_spec() -> bool {
        true
    }

    open spec fn partial_cmp_spec(&self, other: &FlowSpecNlri) -> Option<Ordering> {
        Some(ord_from_value(lex_order(self@.raw, other@.raw)))
    }
}

} // verus!
