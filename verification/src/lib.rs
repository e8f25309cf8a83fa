//! FlowSpec v1/v2 NLRI parsing (RFC 8955 for IPv4, RFC 8956 for IPv6),
//! with the rule ordering of RFC 8955 §5.1 and a textual rendering.

pub mod afi;
pub mod error;
pub mod parser;
pub mod ops;
pub mod prefix;
pub mod component;
pub mod nlri;
pub mod text;
pub mod order;
pub mod laws;

pub use afi::Afi;
pub use component::Component;
pub use error::{FormError, ParseError};
pub use nlri::{ComponentIter, FlowSpecNlri};
pub use ops::{BitmaskOp, NumericOp};
pub use order::rfc8955_cmp;
pub use parser::Parser;
pub use prefix::{Addr, Prefix};
