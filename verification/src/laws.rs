use vstd::prelude::*;
use crate::afi::Afi;
use crate::error::ParseError;
use crate::component::{
    component_at, component_text, prefix_at, prefix_v6_at, type_code_of, ComponentView,
};
use crate::prefix::{addr_bits, host_zero, prefix_ok, prefix_text, Addr};
use crate::nlri::{
    components_from, components_of, components_ok, compose_header, first_dst, nlri_at, nlri_len_at,
    lemma_component_at_advances, NlriView,
};
use crate::ops::{
    bitmask_op_text, is_end_of_list, numeric_op_text, op_at, op_list_end, op_separator, ops_text_from,
};
use crate::text::dec_text;
use vstd::arithmetic::div_mod::{lemma_basic_div, lemma_div_denominator, lemma_div_is_ordered};
use vstd::arithmetic::power2::{lemma2_to64, lemma_pow2_adds, lemma_pow2_pos, pow2};
use vstd::bits::lemma_u128_shr_is_div;
use crate::order::{mask_of,
    component_order, int_order, lex_order, min_len, op_order, order_rest, ops_of, prefix_order,
    rfc8955_order, u128_order, u8_order,
};

verus! {

// ------------------------------------------------------------------------
// The rule order

proof fn lemma_lex_order_refl(x: Seq<u8>)
    ensures
        lex_order(x, x) == 0,
    decreases x.len(),
{
    if x.len() > 0 {
        lemma_lex_order_refl(x.drop_first());
    }
}

proof fn lemma_lex_order_antisym(x: Seq<u8>, y: Seq<u8>)
    ensures
        lex_order(x, y) == -lex_order(y, x),
    decreases x.len(),
{
    if x.len() > 0 && y.len() > 0 && x[0] == y[0] {
        lemma_lex_order_antisym(x.drop_first(), y.drop_first());
    }
}

proof fn lemma_op_order_antisym(x: Seq<u8>, y: Seq<u8>)
    ensures
        op_order(x, y) == -op_order(y, x),
{
    let c = if x.len() < y.len() {
        x.len()
    } else {
        y.len()
    };
    let c2 = if y.len() < x.len() {
        y.len()
    } else {
        x.len()
    };
    assert(c == c2);
    lemma_lex_order_antisym(x.take(c as int), y.take(c as int));
}

proof fn lemma_component_order_refl(x: ComponentView)
    ensures
        component_order(x, x) == 0,
{
    match x {
        ComponentView::Ops { bytes, .. } => {
            lemma_lex_order_refl(bytes.take(bytes.len() as int));
        },
        _ => {},
    }
}

proof fn lemma_component_order_antisym(x: ComponentView, y: ComponentView)
    ensures
        component_order(x, y) == -component_order(y, x),
{
    lemma_op_order_antisym(ops_of(x), ops_of(y));
    match (x, y) {
        (ComponentView::DestinationPrefix(pa), ComponentView::DestinationPrefix(pb)) => {
            assert(min_len(pa.1, pb.1) == min_len(pb.1, pa.1));
        },
        (ComponentView::SourcePrefix(pa), ComponentView::SourcePrefix(pb)) => {
            assert(min_len(pa.1, pb.1) == min_len(pb.1, pa.1));
        },
        (
            ComponentView::DestinationPrefixV6 { prefix: pa, .. },
            ComponentView::DestinationPrefixV6 { prefix: pb, .. },
        ) => {
            assert(min_len(pa.1, pb.1) == min_len(pb.1, pa.1));
        },
        (
            ComponentView::SourcePrefixV6 { prefix: pa, .. },
            ComponentView::SourcePrefixV6 { prefix: pb, .. },
        ) => {
            assert(min_len(pa.1, pb.1) == min_len(pb.1, pa.1));
        },
        _ => {},
    }
}

proof fn lemma_order_rest_refl(c: Seq<ComponentView>, e: bool)
    ensures
        order_rest(c, e, c, e, 0) == 0,
    decreases c.len(),
{
    if c.len() > 0 {
        lemma_component_order_refl(c[0]);
        lemma_order_rest_refl(c.drop_first(), e);
    }
}

proof fn lemma_order_rest_antisym(
    ca: Seq<ComponentView>,
    ea: bool,
    cb: Seq<ComponentView>,
    eb: bool,
    raw: int,
)
    ensures
        order_rest(ca, ea, cb, eb, raw) == -order_rest(cb, eb, ca, ea, -raw),
    decreases ca.len(),
{
    if ca.len() > 0 && cb.len() > 0 {
        lemma_component_order_antisym(ca[0], cb[0]);
        lemma_order_rest_antisym(ca.drop_first(), ea, cb.drop_first(), eb, raw);
    }
}

/// Every rule is ordered equal to itself.
pub proof fn rfc8955_order_reflexive(a: NlriView)
    ensures
        rfc8955_order(a, a) == 0,
{
    lemma_lex_order_refl(a.raw);
    let (c, e) = components_of(a.raw, a.afi);
    lemma_order_rest_refl(c, e is Some);
}

/// Swapping two rules reverses their order: `a` has precedence over `b`
/// exactly when `b` comes after `a`.
pub proof fn rfc8955_order_antisymmetric(a: NlriView, b: NlriView)
    ensures
        rfc8955_order(a, b) == -rfc8955_order(b, a),
{
    lemma_lex_order_antisym(a.raw, b.raw);
    let (ca, ea) = components_of(a.raw, a.afi);
    let (cb, eb) = components_of(b.raw, b.afi);
    lemma_order_rest_antisym(ca, ea is Some, cb, eb is Some, lex_order(a.raw, b.raw));
}

// ------------------------------------------------------------------------
// Transitivity of the prefix order

/// The first `c` of the 128 bits of `a`, as a number.
pub open spec fn top_bits(a: u128, c: u8) -> nat {
    (a as nat) / pow2((128 - c) as nat)
}

proof fn lemma_pow2_128()
    ensures
        pow2(128) == 0x1_0000_0000_0000_0000_0000_0000_0000_0000,
{
    lemma2_to64();
    lemma_pow2_adds(64, 64);
}

/// Clearing the low `k` bits keeps a strict order of the high bits.
#[verifier::rlimit(50)]
proof fn lemma_shr_shl_strict(a: u128, b: u128, k: u128)
    by (bit_vector)
    requires
        k < 128,
        (a >> k) < (b >> k),
    ensures
        ((a >> k) << k) < ((b >> k) << k),
{
}

/// Comparing the first `c` bits through a mask is comparing them as numbers.
proof fn lemma_mask_order(a: u128, b: u128, c: u8)
    requires
        c <= 128,
    ensures
        u128_order(a & mask_of(c), b & mask_of(c)) == int_order(
            top_bits(a, c) as int,
            top_bits(b, c) as int,
        ),
{
    if c == 0 {
        assert(a & 0u128 == 0u128) by (bit_vector);
        assert(b & 0u128 == 0u128) by (bit_vector);
        lemma_pow2_128();
        lemma_basic_div(a as int, pow2(128) as int);
        lemma_basic_div(b as int, pow2(128) as int);
    } else {
        let k: u128 = (128 - c) as u128;
        assert(a & ((!0u128) << k) == (a >> k) << k) by (bit_vector)
            requires
                k < 128,
        ;
        assert(b & ((!0u128) << k) == (b >> k) << k) by (bit_vector)
            requires
                k < 128,
        ;
        if (a >> k) < (b >> k) {
            lemma_shr_shl_strict(a, b, k);
        }
        if (b >> k) < (a >> k) {
            lemma_shr_shl_strict(b, a, k);
        }
        lemma_u128_shr_is_div(a, k);
        lemma_u128_shr_is_div(b, k);
    }
}

/// Fewer top bits are the top bits of more.
proof fn lemma_top_bits_down(a: u128, c1: u8, c2: u8)
    requires
        c1 <= c2 <= 128,
    ensures
        top_bits(a, c1) == top_bits(a, c2) / pow2((c2 - c1) as nat),
{
    lemma_pow2_pos((128 - c2) as nat);
    lemma_pow2_pos((c2 - c1) as nat);
    lemma_pow2_adds((128 - c2) as nat, (c2 - c1) as nat);
    lemma_div_denominator(a as int, pow2((128 - c2) as nat) as int, pow2((c2 - c1) as nat) as int);
}

/// Comparing fewer top bits keeps `<=`; a strict `<` on fewer top bits
/// carries over to more.
proof fn lemma_top_bits_mono(a: u128, b: u128, c1: u8, c2: u8)
    requires
        c1 <= c2 <= 128,
    ensures
        top_bits(a, c2) <= top_bits(b, c2) ==> top_bits(a, c1) <= top_bits(b, c1),
        top_bits(a, c1) < top_bits(b, c1) ==> top_bits(a, c2) < top_bits(b, c2),
        top_bits(a, c2) == top_bits(b, c2) ==> top_bits(a, c1) == top_bits(b, c1),
{
    lemma_top_bits_down(a, c1, c2);
    lemma_top_bits_down(b, c1, c2);
    lemma_pow2_pos((c2 - c1) as nat);
    if top_bits(a, c2) <= top_bits(b, c2) {
        lemma_div_is_ordered(
            top_bits(a, c2) as int,
            top_bits(b, c2) as int,
            pow2((c2 - c1) as nat) as int,
        );
    }
    if top_bits(b, c2) <= top_bits(a, c2) {
        lemma_div_is_ordered(
            top_bits(b, c2) as int,
            top_bits(a, c2) as int,
            pow2((c2 - c1) as nat) as int,
        );
    }
}

/// The prefix order, for lengths up to 128, through top bits.
proof fn lemma_prefix_order_top_bits(pa: (Addr, u8), oa: u8, pb: (Addr, u8), ob: u8)
    requires
        pa.1 <= 128,
        pb.1 <= 128,
    ensures
        prefix_order(pa, oa, pb, ob) == if oa != ob {
            u8_order(oa, ob)
        } else {
            let c = min_len(pa.1, pb.1);
            let o = int_order(
                top_bits(addr_bits(pa.0), c) as int,
                top_bits(addr_bits(pb.0), c) as int,
            );
            if o != 0 {
                o
            } else {
                u8_order(pb.1, pa.1)
            }
        },
{
    lemma_mask_order(addr_bits(pa.0), addr_bits(pb.0), min_len(pa.1, pb.1));
}

/// Two prefix components compare in opposite ways when swapped, and a
/// prefix component compares equal with itself.
pub proof fn prefix_order_antisymmetric(pa: (Addr, u8), oa: u8, pb: (Addr, u8), ob: u8)
    ensures
        prefix_order(pa, oa, pb, ob) == -prefix_order(pb, ob, pa, oa),
        prefix_order(pa, oa, pa, oa) == 0,
{
    assert(min_len(pa.1, pb.1) == min_len(pb.1, pa.1));
}

/// How two prefix components compare, case by case: the lower pattern
/// offset first; with equal offsets, the lower value of the bits that both
/// prefixes cover first; and where those bits agree, the longer prefix
/// first.
pub proof fn prefix_order_cases(pa: (Addr, u8), oa: u8, pb: (Addr, u8), ob: u8)
    requires
        pa.1 <= 128,
        pb.1 <= 128,
    ensures
        oa != ob ==> prefix_order(pa, oa, pb, ob) == u8_order(oa, ob),
        oa == ob && pa == pb ==> prefix_order(pa, oa, pb, ob) == 0,
        ({
            let c = min_len(pa.1, pb.1);
            let ta = top_bits(addr_bits(pa.0), c);
            let tb = top_bits(addr_bits(pb.0), c);
            &&& oa == ob && ta != tb ==> prefix_order(pa, oa, pb, ob) == int_order(ta as int, tb as int)
            &&& oa == ob && ta == tb ==> prefix_order(pa, oa, pb, ob) == u8_order(pb.1, pa.1)
        }),
        oa == ob && pa.1 > pb.1 && top_bits(addr_bits(pa.0), pb.1) == top_bits(addr_bits(pb.0), pb.1)
            ==> prefix_order(pa, oa, pb, ob) == -1,
{
    lemma_prefix_order_top_bits(pa, oa, pb, ob);
}

/// The prefix order is transitive for lengths up to 128.
proof fn lemma_prefix_order_trans(
    pa: (Addr, u8),
    oa: u8,
    pb: (Addr, u8),
    ob: u8,
    pc: (Addr, u8),
    oc: u8,
)
    requires
        pa.1 <= 128,
        pb.1 <= 128,
        pc.1 <= 128,
        prefix_order(pa, oa, pb, ob) <= 0,
        prefix_order(pb, ob, pc, oc) <= 0,
    ensures
        prefix_order(pa, oa, pc, oc) <= 0,
{
    lemma_prefix_order_top_bits(pa, oa, pb, ob);
    lemma_prefix_order_top_bits(pb, ob, pc, oc);
    lemma_prefix_order_top_bits(pa, oa, pc, oc);
    if oa == ob && ob == oc {
        let (a, b, c) = (addr_bits(pa.0), addr_bits(pb.0), addr_bits(pc.0));
        let (la, lb, lc) = (pa.1, pb.1, pc.1);
        let m = min_len(la, min_len(lb, lc));
        lemma_top_bits_mono(a, b, m, min_len(la, lb));
        lemma_top_bits_mono(b, a, m, min_len(la, lb));
        lemma_top_bits_mono(b, c, m, min_len(lb, lc));
        lemma_top_bits_mono(c, b, m, min_len(lb, lc));
        lemma_top_bits_mono(a, c, m, min_len(la, lc));
        lemma_top_bits_mono(c, a, m, min_len(la, lc));
    }
}

/// Prefixes ordered equal compare alike with every other prefix.
proof fn lemma_prefix_order_congruent(
    pa: (Addr, u8),
    oa: u8,
    pb: (Addr, u8),
    ob: u8,
    pc: (Addr, u8),
    oc: u8,
)
    requires
        pa.1 <= 128,
        pb.1 <= 128,
        pc.1 <= 128,
        prefix_order(pa, oa, pb, ob) == 0,
    ensures
        prefix_order(pa, oa, pc, oc) == prefix_order(pb, ob, pc, oc),
{
    lemma_prefix_order_top_bits(pa, oa, pb, ob);
    lemma_prefix_order_top_bits(pb, ob, pc, oc);
    lemma_prefix_order_top_bits(pa, oa, pc, oc);
    let (a, b, c) = (addr_bits(pa.0), addr_bits(pb.0), addr_bits(pc.0));
    let l = pa.1;
    let m = min_len(l, pc.1);
    lemma_top_bits_mono(a, b, m, l);
    lemma_top_bits_mono(b, a, m, l);
}

// ------------------------------------------------------------------------
// Transitivity of the operator-list order

proof fn lemma_lex_order_range(x: Seq<u8>, y: Seq<u8>)
    ensures
        -1 <= lex_order(x, y) <= 1,
        lex_order(x, y) == 0 ==> x == y,
    decreases x.len(),
{
    if x.len() > 0 && y.len() > 0 && x[0] == y[0] {
        lemma_lex_order_range(x.drop_first(), y.drop_first());
        if lex_order(x, y) == 0 {
            assert(x =~= seq![x[0]] + x.drop_first());
            assert(y =~= seq![y[0]] + y.drop_first());
        }
    }
    if x.len() == 0 && y.len() == 0 {
        assert(x =~= y);
    }
}

proof fn lemma_lex_order_trans(x: Seq<u8>, y: Seq<u8>, z: Seq<u8>)
    requires
        lex_order(x, y) <= 0,
        lex_order(y, z) <= 0,
    ensures
        lex_order(x, z) <= 0,
    decreases x.len(),
{
    if x.len() > 0 && y.len() > 0 && z.len() > 0 && x[0] == y[0] && y[0] == z[0] {
        lemma_lex_order_trans(x.drop_first(), y.drop_first(), z.drop_first());
    }
}

/// On strings of one length, the order is decided by the first `m` bytes
/// unless they are equal.
proof fn lemma_lex_order_split(u: Seq<u8>, v: Seq<u8>, m: int)
    requires
        u.len() == v.len(),
        0 <= m <= u.len(),
    ensures
        lex_order(u, v) == if lex_order(u.take(m), v.take(m)) != 0 {
            lex_order(u.take(m), v.take(m))
        } else {
            lex_order(u.skip(m), v.skip(m))
        },
    decreases m,
{
    if m == 0 {
        assert(u.take(0) =~= Seq::<u8>::empty());
        assert(v.take(0) =~= Seq::<u8>::empty());
        assert(u.skip(0) =~= u);
        assert(v.skip(0) =~= v);
    } else {
        assert(u.take(m)[0] == u[0]);
        assert(v.take(m)[0] == v[0]);
        if u[0] == v[0] {
            lemma_lex_order_split(u.drop_first(), v.drop_first(), m - 1);
            assert(u.take(m).drop_first() =~= u.drop_first().take(m - 1));
            assert(v.take(m).drop_first() =~= v.drop_first().take(m - 1));
            assert(u.drop_first().skip(m - 1) =~= u.skip(m));
            assert(v.drop_first().skip(m - 1) =~= v.skip(m));
        }
    }
}

/// The first `m` bytes of the first `c` bytes.
proof fn lemma_take_take(x: Seq<u8>, m: int, c: int)
    requires
        0 <= m <= c <= x.len(),
    ensures
        x.take(c).take(m) == x.take(m),
        x.take(c).len() == c,
{
    assert(x.take(c).take(m) =~= x.take(m));
}

/// Operator lists ordered equal are the same bytes.
proof fn lemma_op_order_zero(x: Seq<u8>, y: Seq<u8>)
    ensures
        op_order(x, y) == 0 ==> x == y,
{
    let c = if x.len() < y.len() {
        x.len()
    } else {
        y.len()
    };
    lemma_lex_order_range(x.take(c as int), y.take(c as int));
    if op_order(x, y) == 0 {
        assert(x.len() == y.len());
        assert(x.take(c as int) =~= x);
        assert(y.take(c as int) =~= y);
    }
}

/// The operator-list order is transitive.
proof fn lemma_op_order_trans(x: Seq<u8>, y: Seq<u8>, z: Seq<u8>)
    requires
        op_order(x, y) <= 0,
        op_order(y, z) <= 0,
    ensures
        op_order(x, z) <= 0,
{
    let c1 = if x.len() < y.len() {
        x.len() as int
    } else {
        y.len() as int
    };
    let c2 = if y.len() < z.len() {
        y.len() as int
    } else {
        z.len() as int
    };
    let c3 = if x.len() < z.len() {
        x.len() as int
    } else {
        z.len() as int
    };
    let m = if c1 < c2 {
        c1
    } else {
        c2
    };
    assert(m <= c3);
    lemma_take_take(x, m, c1);
    lemma_take_take(y, m, c1);
    lemma_take_take(y, m, c2);
    lemma_take_take(z, m, c2);
    lemma_take_take(x, m, c3);
    lemma_take_take(z, m, c3);
    lemma_lex_order_split(x.take(c1), y.take(c1), m);
    lemma_lex_order_split(y.take(c2), z.take(c2), m);
    lemma_lex_order_split(x.take(c3), z.take(c3), m);
    let (xm, ym, zm) = (x.take(m), y.take(m), z.take(m));
    lemma_lex_order_range(x.take(c1), y.take(c1));
    lemma_lex_order_range(y.take(c2), z.take(c2));
    lemma_lex_order_range(xm, ym);
    lemma_lex_order_range(ym, zm);
    lemma_lex_order_range(xm, zm);
    lemma_lex_order_range(ym, xm);
    lemma_lex_order_trans(xm, ym, zm);
    lemma_lex_order_antisym(xm, ym);
    if lex_order(xm, zm) == 0 {
        lemma_lex_order_trans(ym, zm, xm);
        lemma_lex_order_antisym(xm, zm);
    }
}

// ------------------------------------------------------------------------
// Transitivity of the rule order

/// A component as one read for the family `afi`: valid prefixes of the
/// family's shape with lengths up to 128, operator lists of types 3 to 13.
pub open spec fn fits_afi(c: ComponentView, afi: Afi) -> bool {
    match c {
        ComponentView::DestinationPrefix(p) => afi is Ipv4 && p.1 <= 128 && prefix_ok(p.0, p.1),
        ComponentView::SourcePrefix(p) => afi is Ipv4 && p.1 <= 128 && prefix_ok(p.0, p.1),
        ComponentView::DestinationPrefixV6 { prefix, .. } => afi is Ipv6 && prefix.1 <= 128
            && prefix_ok(prefix.0, prefix.1),
        ComponentView::SourcePrefixV6 { prefix, .. } => afi is Ipv6 && prefix.1 <= 128
            && prefix_ok(prefix.0, prefix.1),
        ComponentView::Ops { code, .. } => 3 <= code <= 13,
    }
}

proof fn lemma_component_at_fits(s: Seq<u8>, pos: int, afi: Afi)
    ensures
        component_at(s, pos, afi) matches Ok((c, _)) ==> fits_afi(c, afi),
{
    assert(((0u32 as u128) << 96u128) << (0u8 as u128) == 0u128) by (bit_vector);
    assert((0u128 << (0u8 as u128)) == 0u128) by (bit_vector);
    if 0 <= pos && pos + 1 < s.len() && (s[pos] == 1 || s[pos] == 2) {
        if afi is Ipv4 {
            assert(prefix_at(s, pos + 2, afi, s[pos + 1]) matches Ok((p, _)) ==> prefix_ok(p.0, p.1)
                && p.1 == s[pos + 1]);
        } else if afi is Ipv6 {
            assert(prefix_v6_at(s, pos + 3, s[pos + 1], s[pos + 2]) matches Ok((p, _)) ==> prefix_ok(
                p.0,
                p.1,
            ) && p.1 == s[pos + 1]);
        }
    }
}

proof fn lemma_components_from_fit(s: Seq<u8>, pos: int, afi: Afi)
    ensures
        forall|i: int|
            0 <= i < components_from(s, pos, afi).0.len() ==> fits_afi(
                #[trigger] components_from(s, pos, afi).0[i],
                afi,
            ),
    decreases s.len() - pos,
{
    if pos < s.len() {
        lemma_component_at_fits(s, pos, afi);
        lemma_component_at_advances(s, pos, afi);
        if let Ok((c, next)) = component_at(s, pos, afi) {
            lemma_components_from_fit(s, next, afi);
            let rest = components_from(s, next, afi).0;
            assert forall|i: int|
                0 <= i < components_from(s, pos, afi).0.len() implies fits_afi(
                #[trigger] components_from(s, pos, afi).0[i],
                afi,
            ) by {
                if i > 0 {
                    assert(components_from(s, pos, afi).0[i] == rest[i - 1]);
                }
            }
        }
    }
}

/// The order of two components at one place in two rules.
pub open spec fn step_order(x: ComponentView, y: ComponentView) -> int {
    let t = u8_order(type_code_of(x), type_code_of(y));
    if t != 0 {
        t
    } else {
        component_order(x, y)
    }
}

proof fn lemma_step_order_props(x: ComponentView, y: ComponentView, z: ComponentView, afi: Afi)
    requires
        fits_afi(x, afi),
        fits_afi(y, afi),
        fits_afi(z, afi),
    ensures
        step_order(x, y) <= 0 && step_order(y, z) <= 0 ==> step_order(x, z) <= 0,
        step_order(x, y) == 0 ==> step_order(x, z) == step_order(y, z),
        step_order(x, y) == -step_order(y, x),
{
    lemma_component_order_antisym(x, y);
    let (tx, ty, tz) = (type_code_of(x), type_code_of(y), type_code_of(z));
    if tx == ty && ty == tz {
        match (x, y, z) {
            (
                ComponentView::DestinationPrefix(a),
                ComponentView::DestinationPrefix(b),
                ComponentView::DestinationPrefix(c),
            ) => {
                if step_order(x, y) <= 0 && step_order(y, z) <= 0 {
                    lemma_prefix_order_trans(a, 0, b, 0, c, 0);
                }
                if step_order(x, y) == 0 {
                    lemma_prefix_order_congruent(a, 0, b, 0, c, 0);
                }
            },
            (
                ComponentView::SourcePrefix(a),
                ComponentView::SourcePrefix(b),
                ComponentView::SourcePrefix(c),
            ) => {
                if step_order(x, y) <= 0 && step_order(y, z) <= 0 {
                    lemma_prefix_order_trans(a, 0, b, 0, c, 0);
                }
                if step_order(x, y) == 0 {
                    lemma_prefix_order_congruent(a, 0, b, 0, c, 0);
                }
            },
            (
                ComponentView::DestinationPrefixV6 { prefix: a, offset: oa },
                ComponentView::DestinationPrefixV6 { prefix: b, offset: ob },
                ComponentView::DestinationPrefixV6 { prefix: c, offset: oc },
            ) => {
                if step_order(x, y) <= 0 && step_order(y, z) <= 0 {
                    lemma_prefix_order_trans(a, oa, b, ob, c, oc);
                }
                if step_order(x, y) == 0 {
                    lemma_prefix_order_congruent(a, oa, b, ob, c, oc);
                }
            },
            (
                ComponentView::SourcePrefixV6 { prefix: a, offset: oa },
                ComponentView::SourcePrefixV6 { prefix: b, offset: ob },
                ComponentView::SourcePrefixV6 { prefix: c, offset: oc },
            ) => {
                if step_order(x, y) <= 0 && step_order(y, z) <= 0 {
                    lemma_prefix_order_trans(a, oa, b, ob, c, oc);
                }
                if step_order(x, y) == 0 {
                    lemma_prefix_order_congruent(a, oa, b, ob, c, oc);
                }
            },
            (
                ComponentView::Ops { bytes: a, .. },
                ComponentView::Ops { bytes: b, .. },
                ComponentView::Ops { bytes: c, .. },
            ) => {
                if step_order(x, y) <= 0 && step_order(y, z) <= 0 {
                    lemma_op_order_trans(a, b, c);
                }
                lemma_op_order_zero(a, b);
            },
            _ => {},
        }
    }
}

proof fn lemma_order_rest_trans(
    ca: Seq<ComponentView>,
    cb: Seq<ComponentView>,
    cc: Seq<ComponentView>,
    afi: Afi,
    r1: int,
    r2: int,
    r3: int,
)
    requires
        forall|i: int| 0 <= i < ca.len() ==> fits_afi(#[trigger] ca[i], afi),
        forall|i: int| 0 <= i < cb.len() ==> fits_afi(#[trigger] cb[i], afi),
        forall|i: int| 0 <= i < cc.len() ==> fits_afi(#[trigger] cc[i], afi),
        order_rest(ca, false, cb, false, r1) <= 0,
        order_rest(cb, false, cc, false, r2) <= 0,
    ensures
        order_rest(ca, false, cc, false, r3) <= 0,
    decreases ca.len(),
{
    if ca.len() > 0 && cb.len() > 0 && cc.len() > 0 {
        let (x, y, z) = (ca[0], cb[0], cc[0]);
        lemma_step_order_props(x, y, z, afi);
        lemma_step_order_props(x, z, y, afi);
        lemma_step_order_props(y, z, x, afi);
        lemma_step_order_props(z, x, y, afi);
        if step_order(x, z) == 0 {
            assert forall|i: int| 0 <= i < ca.drop_first().len() implies fits_afi(
                #[trigger] ca.drop_first()[i],
                afi,
            ) by {
                assert(ca.drop_first()[i] == ca[i + 1]);
            }
            assert forall|i: int| 0 <= i < cb.drop_first().len() implies fits_afi(
                #[trigger] cb.drop_first()[i],
                afi,
            ) by {
                assert(cb.drop_first()[i] == cb[i + 1]);
            }
            assert forall|i: int| 0 <= i < cc.drop_first().len() implies fits_afi(
                #[trigger] cc.drop_first()[i],
                afi,
            ) by {
                assert(cc.drop_first()[i] == cc[i + 1]);
            }
            lemma_order_rest_trans(
                ca.drop_first(),
                cb.drop_first(),
                cc.drop_first(),
                afi,
                r1,
                r2,
                r3,
            );
        }
    }
}

/// For rules of one family whose components all parse, the order is
/// transitive: if `a` comes no later than `b` and `b` no later than `c`,
/// then `a` comes no later than `c`.
pub proof fn rfc8955_order_transitive(a: NlriView, b: NlriView, c: NlriView)
    requires
        a.afi == b.afi,
        b.afi == c.afi,
        components_of(a.raw, a.afi).1 is None,
        components_of(b.raw, b.afi).1 is None,
        components_of(c.raw, c.afi).1 is None,
        rfc8955_order(a, b) <= 0,
        rfc8955_order(b, c) <= 0,
    ensures
        rfc8955_order(a, c) <= 0,
{
    lemma_components_from_fit(a.raw, 0, a.afi);
    lemma_components_from_fit(b.raw, 0, b.afi);
    lemma_components_from_fit(c.raw, 0, c.afi);
    lemma_order_rest_trans(
        components_of(a.raw, a.afi).0,
        components_of(b.raw, b.afi).0,
        components_of(c.raw, c.afi).0,
        a.afi,
        lex_order(a.raw, b.raw),
        lex_order(b.raw, c.raw),
        lex_order(a.raw, c.raw),
    );
}

// ------------------------------------------------------------------------
// Reading a rule back from what was written

/// `t` stands in `u` from index `k` on.
pub open spec fn embedded(t: Seq<u8>, u: Seq<u8>, k: int) -> bool {
    &&& 0 <= k
    &&& k + t.len() <= u.len()
    &&& u.subrange(k, k + t.len()) == t
}

proof fn lemma_embedded_index(t: Seq<u8>, u: Seq<u8>, k: int, i: int)
    requires
        embedded(t, u, k),
        0 <= i < t.len(),
    ensures
        u[k + i] == t[i],
{
    assert(u.subrange(k, k + t.len())[i] == u[k + i]);
}

proof fn lemma_embedded_subrange(t: Seq<u8>, u: Seq<u8>, k: int, i: int, j: int)
    requires
        embedded(t, u, k),
        0 <= i <= j <= t.len(),
    ensures
        u.subrange(k + i, k + j) == t.subrange(i, j),
{
    assert forall|x: int| 0 <= x < j - i implies u.subrange(k + i, k + j)[x] == t.subrange(
        i,
        j,
    )[x] by {
        lemma_embedded_index(t, u, k, i + x);
    }
    assert(u.subrange(k + i, k + j) =~= t.subrange(i, j));
}

proof fn lemma_embedded_op_at(t: Seq<u8>, u: Seq<u8>, k: int, p: int)
    requires
        embedded(t, u, k),
    ensures
        op_at(t, p) matches Some((op, v, e)) ==> op_at(u, k + p) == Some((op, v, k + e)),
{
    if let Some((op, v, e)) = op_at(t, p) {
        lemma_embedded_index(t, u, k, p);
        lemma_embedded_subrange(t, u, k, p + 1, e);
    }
}

proof fn lemma_embedded_op_list_end(t: Seq<u8>, u: Seq<u8>, k: int, p: int)
    requires
        embedded(t, u, k),
    ensures
        op_list_end(t, p) matches Some(e) ==> op_list_end(u, k + p) == Some(k + e),
    decreases t.len() - p,
{
    lemma_embedded_op_at(t, u, k, p);
    if let Some((op, v, e)) = op_at(t, p) {
        lemma_embedded_op_list_end(t, u, k, e);
    }
}

proof fn lemma_embedded_prefix_at(t: Seq<u8>, u: Seq<u8>, k: int, p: int, afi: Afi, bits: u8)
    requires
        embedded(t, u, k),
        0 <= p,
    ensures
        prefix_at(t, p, afi, bits) matches Ok((x, e)) ==> prefix_at(u, k + p, afi, bits) == Ok::<
            _,
            crate::error::ParseError,
        >((x, k + e)),
{
    if let Ok((x, e)) = prefix_at(t, p, afi, bits) {
        if e > p {
            lemma_embedded_subrange(t, u, k, p, e);
        }
    }
}

proof fn lemma_embedded_prefix_v6_at(t: Seq<u8>, u: Seq<u8>, k: int, p: int, bits: u8, off: u8)
    requires
        embedded(t, u, k),
        0 <= p,
    ensures
        prefix_v6_at(t, p, bits, off) matches Ok((x, e)) ==> prefix_v6_at(u, k + p, bits, off)
            == Ok::<_, crate::error::ParseError>((x, k + e)),
{
    if let Ok((x, e)) = prefix_v6_at(t, p, bits, off) {
        lemma_embedded_subrange(t, u, k, p, e);
    }
}

proof fn lemma_embedded_component_at(t: Seq<u8>, u: Seq<u8>, k: int, p: int, afi: Afi)
    requires
        embedded(t, u, k),
    ensures
        component_at(t, p, afi) matches Ok((c, e)) ==> component_at(u, k + p, afi) == Ok::<
            _,
            crate::error::ParseError,
        >((c, k + e)),
{
    if let Ok((c, e)) = component_at(t, p, afi) {
        lemma_embedded_index(t, u, k, p);
        let typ = t[p];
        if typ == 1 || typ == 2 {
            lemma_embedded_index(t, u, k, p + 1);
            lemma_embedded_prefix_at(t, u, k, p + 2, afi, t[p + 1]);
            if afi is Ipv6 {
                lemma_embedded_index(t, u, k, p + 2);
                lemma_embedded_prefix_v6_at(t, u, k, p + 3, t[p + 1], t[p + 2]);
            }
        } else {
            lemma_embedded_op_list_end(t, u, k, p + 1);
            crate::ops::lemma_op_list_end_bounds(t, p + 1);
            lemma_embedded_subrange(t, u, k, p + 1, e);
        }
    }
}

proof fn lemma_embedded_components_ok(t: Seq<u8>, u: Seq<u8>, k: int, p: int, afi: Afi)
    requires
        embedded(t, u, k),
        0 <= p,
        components_from(t, p, afi).1 is None,
    ensures
        components_ok(u, k + p, k + t.len(), afi) == Ok::<(), crate::error::ParseError>(()),
    decreases t.len() - p,
{
    if p < t.len() {
        lemma_component_at_advances(t, p, afi);
        lemma_embedded_component_at(t, u, k, p, afi);
        if let Ok((c, e)) = component_at(t, p, afi) {
            lemma_embedded_components_ok(t, u, k, e, afi);
        }
    }
}

proof fn lemma_header_bits(l: u16)
    by (bit_vector)
    requires
        240 <= l < 4096,
    ensures
        ((0xf000u16 | l) >> 8u16) as u8 >= 0xf0u8,
        (((((0xf000u16 | l) >> 8u16) as u8) % 16u8) as u16) * 256u16 + (((0xf000u16 | l)
            & 0xffu16) as u8) as u16 == l,
{
}

/// Writing an NLRI (its length field, then its bytes) and reading it back
/// from the same place gives the same bytes and ends right after them,
/// whatever precedes or follows, when the length fits the 12-bit field
/// and the components parse within the NLRI's own bytes.
pub proof fn compose_parse_roundtrip(n: NlriView, before: Seq<u8>, after: Seq<u8>)
    requires
        n.raw.len() < 4096,
        n.afi is Ipv4 || n.afi is Ipv6,
        components_of(n.raw, n.afi).1 is None,
    ensures
        ({
            let h = compose_header(n.raw.len());
            let s = before + h + n.raw + after;
            nlri_at(s, before.len() as int, n.afi) == Ok::<_, crate::error::ParseError>(
                (n.raw, (before.len() + h.len() + n.raw.len()) as int),
            )
        }),
{
    let h = compose_header(n.raw.len());
    let s = before + h + n.raw + after;
    let pos = before.len() as int;
    let start = pos + h.len();
    let len = n.raw.len() as int;
    if len >= 240 {
        lemma_header_bits(len as u16);
        assert(s[pos] == h[0]);
        assert(s[pos + 1] == h[1]);
        assert(nlri_len_at(s, pos) == Some((len, start)));
    } else {
        assert(s[pos] == h[0]);
        assert(nlri_len_at(s, pos) == Some((len, start)));
    }
    assert(s.subrange(start, start + len) =~= n.raw);
    lemma_embedded_components_ok(n.raw, s, start, 0, n.afi);
}

// ------------------------------------------------------------------------
// What one component is

/// A component that parses is of the type that its first byte names. Under
/// IPv4, type 1 reads as a destination prefix and type 2 as a source
/// prefix, of the length that the second byte gives; under IPv6 they read
/// as prefix patterns with that length and the offset of the third byte.
/// The component ends after it starts, within the bytes.
pub proof fn component_keeps_its_type(s: Seq<u8>, pos: int, afi: Afi)
    ensures
        component_at(s, pos, afi) matches Ok((c, e)) ==> {
            &&& type_code_of(c) == s[pos]
            &&& pos < e <= s.len()
            &&& afi is Ipv4 && s[pos] == 1 ==> (c matches ComponentView::DestinationPrefix(p)
                && p.1 == s[pos + 1])
            &&& afi is Ipv4 && s[pos] == 2 ==> (c matches ComponentView::SourcePrefix(p)
                && p.1 == s[pos + 1])
            &&& afi is Ipv6 && s[pos] == 1 ==> (c matches ComponentView::DestinationPrefixV6 {
                prefix,
                offset,
            } && prefix.1 == s[pos + 1] && offset == s[pos + 2])
            &&& afi is Ipv6 && s[pos] == 2 ==> (c matches ComponentView::SourcePrefixV6 {
                prefix,
                offset,
            } && prefix.1 == s[pos + 1] && offset == s[pos + 2])
            &&& 3 <= s[pos] ==> (c matches ComponentView::Ops { bytes, .. } && bytes == s.subrange(
                pos + 1,
                e,
            ))
        },
{
    lemma_component_at_advances(s, pos, afi);
}

/// The text of a component names its type: "dst " for a destination
/// prefix (type 1), "src " for a source prefix (type 2).
pub proof fn component_text_names_prefix_type(c: ComponentView)
    ensures
        type_code_of(c) == 1 && !(c is Ops) ==> component_text(c).take(4) == "dst "@,
        type_code_of(c) == 2 && !(c is Ops) ==> component_text(c).take(4) == "src "@,
{
    reveal_strlit("dst ");
    reveal_strlit("src ");
    match c {
        ComponentView::DestinationPrefix(p) => {
            assert(("dst "@ + prefix_text(p.0, p.1)).take(4) =~= "dst "@);
        },
        ComponentView::SourcePrefix(p) => {
            assert(("src "@ + prefix_text(p.0, p.1)).take(4) =~= "src "@);
        },
        ComponentView::DestinationPrefixV6 { prefix, offset } => {
            assert(("dst "@ + prefix_text(prefix.0, prefix.1)).take(4) =~= "dst "@);
            assert(("dst "@ + prefix_text(prefix.0, prefix.1) + " offset "@ + dec_text(
                offset as nat,
            )).take(4) =~= "dst "@);
        },
        ComponentView::SourcePrefixV6 { prefix, offset } => {
            assert(("src "@ + prefix_text(prefix.0, prefix.1)).take(4) =~= "src "@);
            assert(("src "@ + prefix_text(prefix.0, prefix.1) + " offset "@ + dec_text(
                offset as nat,
            )).take(4) =~= "src "@);
        },
        _ => {},
    }
}

// ------------------------------------------------------------------------
// The destination prefix of a rule

/// A destination-prefix component, of either family.
pub open spec fn is_destination(c: ComponentView) -> bool {
    c is DestinationPrefix || c is DestinationPrefixV6
}

/// The destination prefix of a rule is the prefix of its first
/// destination-prefix component: that component carries it (for IPv6, with
/// offset 0), and no component before it is a destination prefix. A rule
/// with no destination-prefix component has none; neither has a rule whose
/// first one is an IPv6 pattern with a non-zero offset.
pub proof fn dst_prefix_is_first_destination(cs: Seq<ComponentView>)
    ensures
        first_dst(cs) matches Some(p) ==> exists|i: int|
            0 <= i < cs.len() && (cs[i] == ComponentView::DestinationPrefix(p) || cs[i]
                == ComponentView::DestinationPrefixV6 { prefix: p, offset: 0 }) && forall|j: int|
                0 <= j < i ==> !is_destination(#[trigger] cs[j]),
        (forall|i: int| 0 <= i < cs.len() ==> !is_destination(#[trigger] cs[i])) ==> first_dst(
            cs,
        ) is None,
        forall|i: int|
            0 <= i < cs.len() && is_destination(#[trigger] cs[i]) && (forall|j: int|
                0 <= j < i ==> !is_destination(#[trigger] cs[j])) && first_dst(cs) is None
                ==> (cs[i] matches ComponentView::DestinationPrefixV6 { offset, .. } && offset != 0),
    decreases cs.len(),
{
    if cs.len() > 0 {
        let rest = cs.drop_first();
        dst_prefix_is_first_destination(rest);
        if !is_destination(cs[0]) {
            assert(first_dst(cs) == first_dst(rest));
            if let Some(p) = first_dst(cs) {
                let k = choose|k: int|
                    0 <= k < rest.len() && (rest[k] == ComponentView::DestinationPrefix(p) || rest[k]
                        == ComponentView::DestinationPrefixV6 { prefix: p, offset: 0 }) && forall|j: int|
                        0 <= j < k ==> !is_destination(#[trigger] rest[j]);
                assert(cs[k + 1] == rest[k]);
                assert forall|j: int| 0 <= j < k + 1 implies !is_destination(#[trigger] cs[j]) by {
                    if j > 0 {
                        assert(cs[j] == rest[j - 1]);
                    }
                }
            }
            if forall|i: int| 0 <= i < cs.len() ==> !is_destination(#[trigger] cs[i]) {
                assert forall|i: int| 0 <= i < rest.len() implies !is_destination(
                    #[trigger] rest[i],
                ) by {
                    assert(rest[i] == cs[i + 1]);
                }
            }
            assert forall|i: int|
                0 <= i < cs.len() && is_destination(#[trigger] cs[i]) && (forall|j: int|
                    0 <= j < i ==> !is_destination(#[trigger] cs[j])) && first_dst(cs) is None
                    implies (cs[i] matches ComponentView::DestinationPrefixV6 { offset, .. }
                && offset != 0) by {
                assert(i > 0);
                assert(rest[i - 1] == cs[i]);
                assert forall|j: int| 0 <= j < i - 1 implies !is_destination(#[trigger] rest[j]) by {
                    assert(rest[j] == cs[j + 1]);
                }
            }
        }
    }
}

// ------------------------------------------------------------------------
// Operator text

/// Each operator after the first is joined to the one before it by " && "
/// when its AND bit (0x40) is set and by " || " when it is not, whatever
/// its end-of-list bit says.
pub proof fn op_separator_follows_and_bit(s: Seq<u8>, pos: int, bitmask: bool)
    requires
        op_at(s, pos) is Some,
    ensures
        ops_text_from(s, pos, false, bitmask).take(4) == if s[pos] & 0x40u8 == 0x40u8 {
            " && "@
        } else {
            " || "@
        },
        ops_text_from(s, pos, true, bitmask) == (if bitmask {
            bitmask_op_text(s[pos], op_at(s, pos).unwrap().1)
        } else {
            numeric_op_text(s[pos], op_at(s, pos).unwrap().1)
        }) + (if is_end_of_list(s[pos]) {
            Seq::empty()
        } else {
            ops_text_from(s, op_at(s, pos).unwrap().2, false, bitmask)
        }),
{
    reveal_strlit(" && ");
    reveal_strlit(" || ");
    let (op, v, next) = op_at(s, pos).unwrap();
    let body = (if bitmask {
        bitmask_op_text(op, v)
    } else {
        numeric_op_text(op, v)
    }) + (if is_end_of_list(op) {
        Seq::empty()
    } else {
        ops_text_from(s, next, false, bitmask)
    });
    assert((op_separator(op) + (if bitmask {
        bitmask_op_text(op, v)
    } else {
        numeric_op_text(op, v)
    }) + (if is_end_of_list(op) {
        Seq::empty()
    } else {
        ops_text_from(s, next, false, bitmask)
    })).take(4) =~= op_separator(op));
    assert((Seq::<char>::empty() + (if bitmask {
        bitmask_op_text(op, v)
    } else {
        numeric_op_text(op, v)
    }) + (if is_end_of_list(op) {
        Seq::empty()
    } else {
        ops_text_from(s, next, false, bitmask)
    })) =~= body);
}

// ------------------------------------------------------------------------
// Reading a rule checks every component

/// Where the `k`-th component starts when components are read one after
/// the other from `pos`; `None` when one before it fails to parse.
pub open spec fn component_pos(s: Seq<u8>, pos: int, afi: Afi, k: nat) -> Option<int>
    decreases k,
{
    if k == 0 {
        Some(pos)
    } else {
        match component_pos(s, pos, afi, (k - 1) as nat) {
            None => None,
            Some(q) => match component_at(s, q, afi) {
                Ok((_, next)) => Some(next),
                Err(_) => None,
            },
        }
    }
}

/// Reading from `start` up to `end` goes on as reading from any component
/// position reached below `end`.
proof fn lemma_components_ok_at(s: Seq<u8>, start: int, end: int, afi: Afi, k: nat)
    requires
        component_pos(s, start, afi, k) matches Some(p) && p < end,
    ensures
        components_ok(s, start, end, afi) == components_ok(
            s,
            component_pos(s, start, afi, k).unwrap(),
            end,
            afi,
        ),
    decreases k,
{
    if k > 0 {
        let q = component_pos(s, start, afi, (k - 1) as nat).unwrap();
        lemma_component_at_advances(s, q, afi);
        lemma_components_ok_at(s, start, end, afi, (k - 1) as nat);
    }
}

/// A failure of reading from a reached position is the failure of a
/// component at a reached position below `end`.
proof fn lemma_components_ok_failure(s: Seq<u8>, start: int, end: int, afi: Afi, k: nat, e: ParseError)
    requires
        component_pos(s, start, afi, k) matches Some(p) && components_ok(s, p, end, afi) == Err::<
            (),
            ParseError,
        >(e),
    ensures
        exists|k2: nat, q: int|
            #[trigger] component_pos(s, start, afi, k2) == Some(q) && q < end && #[trigger] component_at(
                s,
                q,
                afi,
            ) == Err::<(ComponentView, int), ParseError>(e),
    decreases s.len() - component_pos(s, start, afi, k).unwrap(),
{
    let p = component_pos(s, start, afi, k).unwrap();
    lemma_component_at_advances(s, p, afi);
    match component_at(s, p, afi) {
        Err(_) => {
            assert(component_pos(s, start, afi, k) == Some(p) && p < end && component_at(s, p, afi)
                == Err::<(ComponentView, int), ParseError>(e));
        },
        Ok((_, next)) => {
            assert(component_pos(s, start, afi, k + 1) == Some(next));
            lemma_components_ok_failure(s, start, end, afi, k + 1, e);
        },
    }
}

/// A FlowSpec NLRI whose length field fits the bytes is accepted exactly
/// when every component that starts before the announced end parses; one
/// that fails there makes the whole NLRI fail with its error. (A component
/// may run past the announced end.)
pub proof fn nlri_parse_checks_every_component(s: Seq<u8>, pos: int, afi: Afi)
    requires
        nlri_len_at(s, pos) matches Some((len, start)) && len <= s.len() - start,
        afi is Ipv4 || afi is Ipv6,
    ensures
        ({
            let (len, start) = nlri_len_at(s, pos).unwrap();
            &&& nlri_at(s, pos, afi) is Ok <==> forall|k: nat, p: int|
                #[trigger] component_pos(s, start, afi, k) == Some(p) && p < start + len
                    ==> (#[trigger] component_at(s, p, afi)) is Ok
            &&& forall|k: nat, p: int|
                #[trigger] component_pos(s, start, afi, k) == Some(p) && p < start + len && (
                #[trigger] component_at(s, p, afi)) is Err ==> nlri_at(s, pos, afi) == Err::<
                    (Seq<u8>, int),
                    ParseError,
                >(component_at(s, p, afi)->Err_0)
            &&& nlri_at(s, pos, afi) matches Ok((raw, next)) ==> raw == s.subrange(start, start + len)
                && next == start + len
        }),
{
    let (len, start) = nlri_len_at(s, pos).unwrap();
    let end = start + len;
    assert forall|k: nat, p: int|
        #[trigger] component_pos(s, start, afi, k) == Some(p) && p < end && (#[trigger] component_at(
            s,
            p,
            afi,
        )) is Err implies nlri_at(s, pos, afi) == Err::<(Seq<u8>, int), ParseError>(
        component_at(s, p, afi)->Err_0,
    ) by {
        lemma_components_ok_at(s, start, end, afi, k);
    }
    if nlri_at(s, pos, afi) is Ok {
        assert forall|k: nat, p: int|
            #[trigger] component_pos(s, start, afi, k) == Some(p) && p < end implies (#[trigger] component_at(
            s,
            p,
            afi,
        )) is Ok by {
            lemma_components_ok_at(s, start, end, afi, k);
        }
    } else {
        let e = components_ok(s, start, end, afi)->Err_0;
        assert(component_pos(s, start, afi, 0) == Some(start));
        lemma_components_ok_failure(s, start, end, afi, 0, e);
    }
}

// ------------------------------------------------------------------------
// Prefixes of equal length

/// A prefix with no host bits is its own masked value.
proof fn lemma_host_zero_mask(a: u128, len: u8)
    requires
        len <= 128,
        host_zero(a, len),
    ensures
        a & mask_of(len) == a,
{
    if len == 0 {
        assert(a << 0u128 == a) by (bit_vector);
        assert(a & 0u128 == 0u128) by (bit_vector);
    } else if len == 128 {
        assert(a & ((!0u128) << 0u128) == a) by (bit_vector);
    } else {
        let l: u128 = len as u128;
        let k: u128 = (128 - len) as u128;
        assert(a & ((!0u128) << k) == a) by (bit_vector)
            requires
                l + k == 128,
                0 < l < 128,
                a << l == 0u128,
        ;
    }
}

/// Prefixes of equal length, destination or source alike, come in the
/// order of their addresses: the lower address has precedence. Source
/// prefixes compare exactly as destination prefixes do, and IPv6 patterns
/// with one offset `o` compare in the same way.
pub proof fn equal_length_prefixes_order_by_address(pa: (Addr, u8), pb: (Addr, u8), o: u8)
    requires
        prefix_ok(pa.0, pa.1),
        prefix_ok(pb.0, pb.1),
        pa.1 == pb.1,
    ensures
        component_order(ComponentView::SourcePrefix(pa), ComponentView::SourcePrefix(pb))
            == component_order(ComponentView::DestinationPrefix(pa), ComponentView::DestinationPrefix(pb)),
        component_order(ComponentView::SourcePrefix(pa), ComponentView::SourcePrefix(pb)) == int_order(
            addr_bits(pa.0) as int,
            addr_bits(pb.0) as int,
        ),
        component_order(ComponentView::DestinationPrefix(pa), ComponentView::DestinationPrefix(pb))
            == int_order(addr_bits(pa.0) as int, addr_bits(pb.0) as int),
        component_order(
            ComponentView::DestinationPrefixV6 { prefix: pa, offset: o },
            ComponentView::DestinationPrefixV6 { prefix: pb, offset: o },
        ) == int_order(addr_bits(pa.0) as int, addr_bits(pb.0) as int),
        component_order(
            ComponentView::SourcePrefixV6 { prefix: pa, offset: o },
            ComponentView::SourcePrefixV6 { prefix: pb, offset: o },
        ) == int_order(addr_bits(pa.0) as int, addr_bits(pb.0) as int),
{
    lemma_host_zero_mask(addr_bits(pa.0), pa.1);
    lemma_host_zero_mask(addr_bits(pb.0), pb.1);
}

/// Two rules that both begin with a destination prefix, or both with a
/// source prefix, of equal lengths and different addresses are ordered by
/// those addresses: the lower one has precedence.
pub proof fn rules_order_by_first_prefix_address(a: NlriView, b: NlriView, pa: (Addr, u8), pb: (Addr, u8))
    requires
        components_of(a.raw, a.afi).0.len() > 0,
        components_of(b.raw, b.afi).0.len() > 0,
        ({
            let x = components_of(a.raw, a.afi).0[0];
            let y = components_of(b.raw, b.afi).0[0];
            ||| x == ComponentView::DestinationPrefix(pa) && y == ComponentView::DestinationPrefix(pb)
            ||| x == ComponentView::SourcePrefix(pa) && y == ComponentView::SourcePrefix(pb)
        }),
        pa.1 == pb.1,
        addr_bits(pa.0) != addr_bits(pb.0),
    ensures
        rfc8955_order(a, b) == int_order(addr_bits(pa.0) as int, addr_bits(pb.0) as int),
{
    lemma_components_from_fit(a.raw, 0, a.afi);
    lemma_components_from_fit(b.raw, 0, b.afi);
    assert(fits_afi(components_of(a.raw, a.afi).0[0], a.afi));
    assert(fits_afi(components_of(b.raw, b.afi).0[0], b.afi));
    equal_length_prefixes_order_by_address(pa, pb, 0);
}

} // verus!
