//! Resolves an IPv4 address to a two-letter country code through one of two
//! file-backed lookup stores, built once from validated input and immutable
//! thereafter.

pub mod errors;
pub mod herrbischoff;
pub mod ip2location;
pub mod provider;
pub mod text;

use vstd::prelude::*;

verus! {

/// The numeric value of an IPv4 address: its four octets read as a
/// big-endian 32-bit integer.
pub open spec fn ipv4_value_spec(a: u8, b: u8, c: u8, d: u8) -> u32 {
    (a as u32 * 0x1000000 + b as u32 * 0x10000 + c as u32 * 0x100 + d as u32) as u32
}

/// Encodes four octets as the canonical 32-bit address value.
pub fn ipv4_value(a: u8, b: u8, c: u8, d: u8) -> (r: u32)
    ensures
        r == ipv4_value_spec(a, b, c, d),
{
    a as u32 * 0x1000000 + b as u32 * 0x10000 + c as u32 * 0x100 + d as u32
}

} // verus!
