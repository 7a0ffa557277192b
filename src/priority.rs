//! Logical task priorities and their encoding for the interrupt controller.
use vstd::arithmetic::power2::{lemma2_to64, pow2};
use vstd::prelude::*;

verus! {

/// Width in bits of the controller's priority register.
pub const PRIORITY_REGISTER_BITS: u32 = 8;

/// Reasons for which no bootstrap sequence can be built.
#[derive(Debug, Clone, Copy, PartialEq, Eq, Structural)]
pub enum BootstrapError {
    /// A declared priority lies outside `1 ..= 2^priority_bits`.
    UnrepresentablePriority { priority: u32 },
}

/// Number of logical priority levels that a controller with `bits` priority bits offers.
pub open spec fn levels(bits: nat) -> nat {
    pow2(bits)
}

/// A logical priority `p` can be programmed on a controller with `bits` priority bits.
pub open spec fn representable(p: int, bits: nat) -> bool {
    1 <= p <= levels(bits)
}

/// The controller-native value for logical priority `p`: larger logical values
/// (more urgent) map to smaller register values, left-aligned in the register.
pub open spec fn hw_encoding(p: int, bits: nat) -> int {
    (levels(bits) - p) * pow2((PRIORITY_REGISTER_BITS - bits) as nat)
}

/// `2^e` for the exponents that a priority register admits.
fn pow2_small(e: u32) -> (r: u32)
    requires
        e <= PRIORITY_REGISTER_BITS,
    ensures
        r == pow2(e as nat),
        1 <= r <= 256,
{
    proof {
        lemma2_to64();
    }
    match e {
        0 => 1,
        1 => 2,
        2 => 4,
        3 => 8,
        4 => 16,
        5 => 32,
        6 => 64,
        7 => 128,
        _ => 256,
    }
}

/// Checks that `priority` is representable with `priority_bits` bits and
/// returns its encoding for the interrupt controller.
pub fn encode(priority: u32, priority_bits: u32) -> (r: Result<u8, BootstrapError>)
    requires
        priority_bits <= PRIORITY_REGISTER_BITS,
    ensures
        r is Ok <==> representable(priority as int, priority_bits as nat),
        r matches Ok(h) ==> h == hw_encoding(priority as int, priority_bits as nat),
        r matches Err(e) ==> e == (BootstrapError::UnrepresentablePriority { priority }),
{
    let n = pow2_small(priority_bits);
    if priority < 1 || priority > n {
        return Err(BootstrapError::UnrepresentablePriority { priority });
    }
    let m = pow2_small(PRIORITY_REGISTER_BITS - priority_bits);
    proof {
        vstd::arithmetic::power2::lemma_pow2_adds(
            priority_bits as nat,
            (PRIORITY_REGISTER_BITS - priority_bits) as nat,
        );
        lemma2_to64();
        assert(n * m == 256);
        let nn = n as int;
        let mm = m as int;
        let pp = priority as int;
        assert((nn - pp) * mm <= 255) by (nonlinear_arith)
            requires
                nn * mm == 256,
                mm >= 1,
                1 <= pp <= nn,
        ;
        assert(0 <= (nn - pp) * mm) by (nonlinear_arith)
            requires
                mm >= 1,
                pp <= nn,
        ;
    }
    Ok(((n - priority) * m) as u8)
}

} // verus!
