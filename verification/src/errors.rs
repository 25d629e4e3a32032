//! Error taxonomy for store construction and for the query surface.

use vstd::prelude::*;

verus! {

/// A fatal construction-time error. Any of these aborts startup: no store is
/// ever partially built or served in a degraded state.
#[derive(Debug, Clone, Copy, PartialEq, Eq, Structural)]
pub enum BuildError {
    /// A malformed numeric field or address-block literal.
    Parse,
    /// A country code whose length is not exactly two characters.
    Validation,
    /// A retained interval that violates the strict increasing,
    /// non-overlapping order of the interval list.
    Ordering,
    /// Zero backends, or more than one backend, selected at startup.
    Configuration,
}

/// A query-surface error, translated by the transport layer into its own
/// response representation.
#[derive(Debug, Clone, Copy, PartialEq, Eq, Structural)]
pub enum ApiError {
    /// The queried address text was not a syntactically valid IPv4 address.
    InvalidIpAddress,
    /// No loaded range or block contains the queried address.
    IpAddressNotFound,
}

impl ApiError {
    /// The HTTP status that the transport layer reports for this error.
    pub fn status_code(&self) -> (r: u16)
        ensures
            self is InvalidIpAddress ==> r == 400,
            self is IpAddressNotFound ==> r == 404,
    {
        match self {
            ApiError::InvalidIpAddress => 400,
            ApiError::IpAddressNotFound => 404,
        }
    }

    /// The machine-readable code carried in the error response body.
    pub fn code(&self) -> (r: u32)
        ensures
            self is InvalidIpAddress ==> r == 100,
            self is IpAddressNotFound ==> r == 101,
    {
        match self {
            ApiError::InvalidIpAddress => 100,
            ApiError::IpAddressNotFound => 101,
        }
    }

    /// The human-readable message carried in the error response body.
    pub fn message(&self) -> (r: &'static str)
        ensures
            self is InvalidIpAddress ==> r@ == "Invalid IP address"@,
            self is IpAddressNotFound ==> r@ == "IP address not covered in database"@,
    {
        match self {
            ApiError::InvalidIpAddress => "Invalid IP address",
            ApiError::IpAddressNotFound => "IP address not covered in database",
        }
    }
}

} // verus!
