use vstd::prelude::*;

verus! {

/// The ways in which well-sized input can still be malformed.
#[derive(Clone, Copy, Debug, PartialEq, Eq, Structural)]
pub enum FormError {
    /// The NLRI length exceeds the bytes that remain.
    InvalidNlriLength,
    /// The address family is neither IPv4 nor IPv6.
    IllegalAfi,
    /// An IPv4 prefix needs more than four bytes.
    IllegalIpv4ByteSize,
    /// An IPv6 prefix needs more than sixteen bytes.
    IllegalIpv6ByteSize,
    /// An IPv6 prefix pattern claims a length above 128.
    Ipv6LengthTooLarge,
    /// An IPv6 prefix pattern offset is beyond its length.
    Ipv6OffsetExceedsLength,
    /// The address has bits set beyond the prefix length.
    PrefixParseFailed,
    /// A Flow Label component outside IPv6.
    FlowLabelIpv6Only,
}

/// The description of each form error.
pub open spec fn form_error_text(e: FormError) -> Seq<char> {
    match e {
        FormError::InvalidNlriLength => "invalid length of FlowSpec NLRI"@,
        FormError::IllegalAfi => "illegal AFI for FlowSpec"@,
        FormError::IllegalIpv4ByteSize => "illegal byte size for IPv4 NLRI"@,
        FormError::IllegalIpv6ByteSize => "illegal byte size for IPv6 NLRI"@,
        FormError::Ipv6LengthTooLarge => "IPv6 prefix length > 128"@,
        FormError::Ipv6OffsetExceedsLength => "IPv6 prefix offset exceeds prefix length"@,
        FormError::PrefixParseFailed => "prefix parsing failed"@,
        FormError::FlowLabelIpv6Only => "Flow Label component is IPv6-only"@,
    }
}

impl FormError {
    /// A short human-readable description.
    pub fn description(&self) -> (r: &'static str)
        ensures
            r@ == form_error_text(*self),
    {
        match self {
            FormError::InvalidNlriLength => "invalid length of FlowSpec NLRI",
            FormError::IllegalAfi => "illegal AFI for FlowSpec",
            FormError::IllegalIpv4ByteSize => "illegal byte size for IPv4 NLRI",
            FormError::IllegalIpv6ByteSize => "illegal byte size for IPv6 NLRI",
            FormError::Ipv6LengthTooLarge => "IPv6 prefix length > 128",
            FormError::Ipv6OffsetExceedsLength => "IPv6 prefix offset exceeds prefix length",
            FormError::PrefixParseFailed => "prefix parsing failed",
            FormError::FlowLabelIpv6Only => "Flow Label component is IPv6-only",
        }
    }
}

/// Why parsing failed.
#[derive(Clone, Copy, Debug, PartialEq, Eq, Structural)]
pub enum ParseError {
    /// The input ended before the value did.
    ShortInput,
    /// The input is malformed.
    Form(FormError),
    /// The input uses a feature that is not supported.
    Unsupported,
}

} // verus!
