//! The base field of the trace: integers modulo the Mersenne prime 2^31 - 1.
//!
//! Field elements are held as their canonical representative, a `u32` below
//! [`MODULUS`]. Arithmetic on them is done by stwo's `M31` type.
use vstd::prelude::*;

verus! {

/// The field modulus, 2^31 - 1.
pub const MODULUS: u32 = 2147483647;

/// A `u32` is a field element when it is the canonical representative of its class.
pub open spec fn is_felt(x: u32) -> bool {
    x < MODULUS
}

/// Field addition on canonical representatives.
pub open spec fn felt_add(x: u32, y: u32) -> u32 {
    ((x as int + y as int) % (MODULUS as int)) as u32
}

/// Relies on stwo's `impl Add for M31`: for operands below the modulus it
/// adds the two values and subtracts the modulus once if the sum reaches it,
/// which is the sum reduced modulo 2^31 - 1.
#[verifier::external_body]
pub(crate) fn m31_add(x: u32, y: u32) -> (r: u32)
    requires
        is_felt(x),
        is_felt(y),
    ensures
        r == felt_add(x, y),
{
    let sum = stwo::core::fields::m31::M31::from_u32_unchecked(x)
        + stwo::core::fields::m31::M31::from_u32_unchecked(y);
    sum.0
}

} // verus!
