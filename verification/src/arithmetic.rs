//! Word-level helpers for multi-precision arithmetic.

use vstd::prelude::*;

verus! {

/// The radix of one limb, `2^64`.
pub open spec fn radix() -> int {
    0x1_0000_0000_0000_0000int
}

/// Compute `a + b + carry`, returning the result and the new carry over 64 bits.
pub fn adc(a: u64, b: u64, carry: u64) -> (ret: (u64, u64))
    ensures
        ret.0 + ret.1 * radix() == a + b + carry,
        ret.1 <= 2,
{
    let ret = (a as u128) + (b as u128) + (carry as u128);
    proof {
        assert((ret as u64) == ret % 0x1_0000_0000_0000_0000u128) by (bit_vector);
        assert((ret >> 64u128) == ret / 0x1_0000_0000_0000_0000u128) by (bit_vector);
    }
    (ret as u64, (ret >> 64) as u64)
}

/// Compute `a + (b * c) + carry`, returning the result and the new carry over 64 bits.
pub fn mac(a: u64, b: u64, c: u64, carry: u64) -> (ret: (u64, u64))
    ensures
        ret.0 + ret.1 * radix() == a + b * c + carry,
{
    proof {
        assert(b * c <= 0xffff_ffff_ffff_fffe_0000_0000_0000_0001) by (nonlinear_arith)
            requires
                b <= 0xffff_ffff_ffff_ffff,
                c <= 0xffff_ffff_ffff_ffff,
        ;
    }
    let ret = (a as u128) + ((b as u128) * (c as u128)) + (carry as u128);
    proof {
        assert((ret as u64) == ret % 0x1_0000_0000_0000_0000u128) by (bit_vector);
        assert((ret >> 64u128) == ret / 0x1_0000_0000_0000_0000u128) by (bit_vector);
    }
    (ret as u64, (ret >> 64) as u64)
}

} // verus!
