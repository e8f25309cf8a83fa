use vstd::prelude::*;

verus! {

/// Address family identifier, as carried in BGP multiprotocol messages.
#[derive(Clone, Copy, Debug, PartialEq, Eq, Hash, Structural)]
pub enum Afi {
    Ipv4,
    Ipv6,
    L2Vpn,
    Unimplemented(u16),
}

} // verus!
