use vstd::prelude::*;
use crate::error::{FormError, ParseError};
use crate::text::dec_text;

verus! {

/// An IP address: 32 bits for IPv4, 128 bits for IPv6.
#[derive(Clone, Copy, Debug, PartialEq, Eq, Hash, Structural)]
pub enum Addr {
    V4(u32),
    V6(u128),
}

/// The address as 128 bits counted from the top: an IPv4 address fills
/// the upper 32 bits.
pub open spec fn addr_bits(addr: Addr) -> u128 {
    match addr {
        Addr::V4(a) => (a as u128) << 96u128,
        Addr::V6(a) => a,
    }
}

/// No bit below the first `len` of the 128 is set.
pub open spec fn host_zero(bits: u128, len: u8) -> bool {
    len >= 128 || bits << (len as u128) == 0
}

/// The address family's width admits `len`, and the address has no bit set
/// beyond the first `len`.
pub open spec fn prefix_ok(addr: Addr, len: u8) -> bool {
    &&& match addr {
        Addr::V4(_) => len <= 32,
        Addr::V6(_) => len <= 128,
    }
    &&& host_zero(addr_bits(addr), len)
}

/// Dotted-decimal text of an IPv4 prefix: the four bytes of the address,
/// highest first, in decimal and separated by dots, a slash, and the
/// length in decimal.
pub open spec fn v4_prefix_text(a: u32, len: u8) -> Seq<char> {
    let n = a as nat;
    dec_text(n / 0x100_0000) + "."@ + dec_text((n / 0x1_0000) % 0x100) + "."@ + dec_text(
        (n / 0x100) % 0x100,
    ) + "."@ + dec_text(n % 0x100) + "/"@ + dec_text(len as nat)
}

/// The text that `inetnum` displays for the IPv6 prefix `a`/`len`: the
/// address in its usual compressed notation, a slash, and the length in
/// decimal.
pub uninterp spec fn v6_prefix_text(a: u128, len: u8) -> Seq<char>;

/// The text that `inetnum` displays for the prefix `addr`/`len`.
pub open spec fn prefix_text(addr: Addr, len: u8) -> Seq<char> {
    match addr {
        Addr::V4(a) => v4_prefix_text(a, len),
        Addr::V6(a) => v6_prefix_text(a, len),
    }
}

/// The error of `inetnum::addr::Prefix::new`, carried through opaquely.
#[verifier::external_type_specification]
#[verifier::external_body]
pub struct ExInetPrefixError(inetnum::addr::PrefixError);

/// Calls `inetnum::addr::Prefix::new`, which accepts a length up to the
/// family's width (32 or 128) when the host bits of the address are all
/// zero, and refuses anything else.
#[verifier::external_body]
fn inet_prefix_new(addr: Addr, len: u8) -> (r: Option<inetnum::addr::PrefixError>)
    ensures
        r is None <==> prefix_ok(addr, len),
{
    match addr {
        Addr::V4(a) => inetnum::addr::Prefix::new(a.to_be_bytes().into(), len).err(),
        Addr::V6(a) => inetnum::addr::Prefix::new(a.to_be_bytes().into(), len).err(),
    }
}

/// The `Display` text of the `inetnum::addr::Prefix` with this address and
/// length, as characters: the address as `std` displays it, a slash and
/// the length in decimal. An IPv4 address is dotted decimal; what the IPv6
/// text holds is named, not stated.
#[verifier::external_body]
fn inet_prefix_text(addr: Addr, len: u8) -> (r: Vec<char>)
    requires
        prefix_ok(addr, len),
    ensures
        match addr {
            Addr::V4(a) => r@ == v4_prefix_text(a, len),
            Addr::V6(a) => r@ == v6_prefix_text(a, len),
        },
{
    let p = match addr {
        Addr::V4(a) => inetnum::addr::Prefix::new(a.to_be_bytes().into(), len),
        Addr::V6(a) => inetnum::addr::Prefix::new(a.to_be_bytes().into(), len),
    };
    p.unwrap().to_string().chars().collect()
}

/// An IP prefix: an address and a length, with no host bits set.
#[derive(Clone, Copy, Debug, PartialEq, Eq, Hash, Structural)]
pub struct Prefix {
    addr: Addr,
    len: u8,
}

impl View for Prefix {
    type V = (Addr, u8);

    closed spec fn view(&self) -> (Addr, u8) {
        (self.addr, self.len)
    }
}

impl Prefix {
    #[verifier::type_invariant]
    closed spec fn inv(self) -> bool {
        prefix_ok(self.addr, self.len)
    }

    /// The prefix `addr`/`len`, when `inetnum` accepts it.
    pub fn new(addr: Addr, len: u8) -> (r: Result<Prefix, ParseError>)
        ensures
            match r {
                Ok(p) => prefix_ok(addr, len) && p@ == (addr, len),
                Err(e) => !prefix_ok(addr, len) && e == ParseError::Form(
                    FormError::PrefixParseFailed,
                ),
            },
    {
        match inet_prefix_new(addr, len) {
            None => Ok(Prefix { addr, len }),
            Some(_) => Err(ParseError::Form(FormError::PrefixParseFailed)),
        }
    }

    /// The address.
    pub fn addr(&self) -> (r: Addr)
        ensures
            r == self@.0,
    {
        self.addr
    }

    /// The prefix length.
    pub fn len(&self) -> (r: u8)
        ensures
            r == self@.1,
            r <= 128,
    {
        proof {
            use_type_invariant(self);
        }
        self.len
    }

    /// Whether this is an IPv4 prefix.
    pub fn is_v4(&self) -> (r: bool)
        ensures
            r == self@.0 is V4,
    {
        match self.addr {
            Addr::V4(_) => true,
            Addr::V6(_) => false,
        }
    }

    /// The address as 128 bits counted from the top.
    pub fn bits(&self) -> (r: u128)
        ensures
            r == addr_bits(self@.0),
    {
        match self.addr {
            Addr::V4(a) => (a as u128) << 96u128,
            Addr::V6(a) => a,
        }
    }

    /// The prefix in text, as `inetnum` displays it.
    pub fn to_chars(&self) -> (r: Vec<char>)
        ensures
            r@ == prefix_text(self@.0, self@.1),
    {
        proof {
            use_type_invariant(self);
        }
        inet_prefix_text(self.addr, self.len)
    }
}

} // verus!
