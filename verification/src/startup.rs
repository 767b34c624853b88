//! What start-up code computes before it touches the hardware.

use vstd::prelude::*;

verus! {

/// The bits of the coprocessor access control register that grant full
/// access to coprocessors 0, 1 and 2: two bits for each.
pub const COPROCESSOR_FULL_ACCESS: u32 = 0b11_1111;

/// The value to write to the coprocessor access control register so that
/// coprocessors 0, 1 and 2 are fully accessible: `cpacr` with their bits
/// set and every other bit as it was.
pub fn grant_coprocessor_access(cpacr: u32) -> (granted: u32)
    ensures
        granted == cpacr | COPROCESSOR_FULL_ACCESS,
        granted & COPROCESSOR_FULL_ACCESS == COPROCESSOR_FULL_ACCESS,
        granted & !COPROCESSOR_FULL_ACCESS == cpacr & !COPROCESSOR_FULL_ACCESS,
{
    let granted: u32 = cpacr | COPROCESSOR_FULL_ACCESS;
    assert(granted & 0b11_1111u32 == 0b11_1111u32 && granted & !0b11_1111u32 == cpacr
        & !0b11_1111u32) by (bit_vector)
        requires
            granted == cpacr | 0b11_1111u32,
    ;
    granted
}

} // verus!
