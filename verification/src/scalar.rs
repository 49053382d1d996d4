//! Arithmetic modulo a scalar-field order on raw (canonical, non-Montgomery)
//! four-limb scalars.

use vstd::arithmetic::div_mod::*;
use vstd::arithmetic::mul::*;
use vstd::arithmetic::power2::*;
use vstd::prelude::*;

use crate::arithmetic::{adc, radix};
use crate::ct::ct_select_u64;
use crate::limbs::{lemma_div_pow2_step, lemma_val4_bit, lemma_val4_bounds, two_pow_256, val4};

verus! {

/// `2^255`.
pub open spec fn two_pow_255() -> int {
    0x8000_0000_0000_0000_0000_0000_0000_0000_0000_0000_0000_0000_0000_0000_0000_0000int
}

/// A modulus this arithmetic supports: above one and below `2^255`.
pub open spec fn modulus_ok(n: [u64; 4]) -> bool {
    1 < val4(n) < two_pow_255()
}

/// Compute `a - (b + borrow)`, returning the result and the new borrow.
fn sbb(a: u64, b: u64, borrow: u64) -> (ret: (u64, u64))
    requires
        borrow <= 1,
    ensures
        ret.1 <= 1,
        ret.0 - ret.1 * radix() == a - b - borrow,
{
    let t: u128 = (a as u128) + 0x1_0000_0000_0000_0000u128 - (b as u128) - (borrow as u128);
    let d = (t % 0x1_0000_0000_0000_0000u128) as u64;
    let h = (t / 0x1_0000_0000_0000_0000u128) as u64;
    (d, 1 - h)
}

/// Four-limb addition with the carry out.
fn add4(a: &[u64; 4], b: &[u64; 4]) -> (ret: ([u64; 4], u64))
    ensures
        ret.1 <= 1,
        val4(ret.0) + ret.1 * two_pow_256() == val4(*a) + val4(*b),
{
    let (d0, c) = adc(a[0], b[0], 0);
    let (d1, c) = adc(a[1], b[1], c);
    let (d2, c) = adc(a[2], b[2], c);
    let (d3, c) = adc(a[3], b[3], c);
    ([d0, d1, d2, d3], c)
}

/// Four-limb subtraction with the borrow out.
fn sub4(a: &[u64; 4], b: &[u64; 4]) -> (ret: ([u64; 4], u64))
    ensures
        ret.1 <= 1,
        val4(ret.0) - ret.1 * two_pow_256() == val4(*a) - val4(*b),
{
    let (d0, br) = sbb(a[0], b[0], 0);
    let (d1, br) = sbb(a[1], b[1], br);
    let (d2, br) = sbb(a[2], b[2], br);
    let (d3, br) = sbb(a[3], b[3], br);
    ([d0, d1, d2, d3], br)
}

/// Select `b` when `choice` holds and `a` otherwise, limb by limb in constant time.
pub(crate) fn select4(a: &[u64; 4], b: &[u64; 4], choice: bool) -> (r: [u64; 4])
    ensures
        r == (if choice {
            *b
        } else {
            *a
        }),
{
    let r = [
        ct_select_u64(a[0], b[0], choice),
        ct_select_u64(a[1], b[1], choice),
        ct_select_u64(a[2], b[2], choice),
        ct_select_u64(a[3], b[3], choice),
    ];
    assert(r =~= (if choice {
        *b
    } else {
        *a
    }));
    r
}

/// `(a + b) mod n` for reduced `a` and `b`.
pub fn add_mod(a: &[u64; 4], b: &[u64; 4], n: &[u64; 4]) -> (r: [u64; 4])
    requires
        modulus_ok(*n),
        val4(*a) < val4(*n),
        val4(*b) < val4(*n),
    ensures
        val4(r) == (val4(*a) + val4(*b)) % val4(*n),
        val4(r) < val4(*n),
{
    let (s, c) = add4(a, b);
    let (d, br) = sub4(&s, n);
    proof {
        lemma_val4_bounds(s);
        lemma_val4_bounds(d);
        lemma_val4_bounds(*a);
        lemma_val4_bounds(*b);
        assert(c == 0);
    }
    let r = select4(&d, &s, br == 1);
    proof {
        let x = val4(*a) + val4(*b);
        let m = val4(*n);
        if br == 1 {
            lemma_small_mod(x as nat, m as nat);
        } else {
            lemma_fundamental_div_mod_converse(x, m, 1, x - m);
        }
    }
    r
}

/// `(a - b) mod n` for reduced `a` and `b`.
pub fn sub_mod(a: &[u64; 4], b: &[u64; 4], n: &[u64; 4]) -> (r: [u64; 4])
    requires
        modulus_ok(*n),
        val4(*a) < val4(*n),
        val4(*b) < val4(*n),
    ensures
        val4(r) == (val4(*a) - val4(*b)) % val4(*n),
        val4(r) < val4(*n),
{
    let (d, br) = sub4(a, b);
    let (e, c) = add4(&d, n);
    proof {
        lemma_val4_bounds(d);
        lemma_val4_bounds(e);
        lemma_val4_bounds(*a);
        lemma_val4_bounds(*b);
    }
    let r = select4(&d, &e, br == 1);
    proof {
        let x = val4(*a) - val4(*b);
        let m = val4(*n);
        if br == 1 {
            assert(c == 1);
            lemma_fundamental_div_mod_converse(x, m, -1, x + m);
        } else {
            lemma_small_mod(x as nat, m as nat);
        }
    }
    r
}

/// `(-a) mod n` for a reduced `a`.
pub fn neg_mod(a: &[u64; 4], n: &[u64; 4]) -> (r: [u64; 4])
    requires
        modulus_ok(*n),
        val4(*a) < val4(*n),
    ensures
        val4(r) == (-val4(*a)) % val4(*n),
        val4(r) < val4(*n),
{
    let zero = [0u64; 4];
    sub_mod(&zero, a, n)
}

/// `(a * b) mod n` for a reduced `a` and any four-limb `b`, by doubling and
/// adding over the bits of `b` from the top.
pub fn mul_mod(a: &[u64; 4], b: &[u64; 4], n: &[u64; 4]) -> (r: [u64; 4])
    requires
        modulus_ok(*n),
        val4(*a) < val4(*n),
    ensures
        val4(r) == (val4(*a) * val4(*b)) % val4(*n),
        val4(r) < val4(*n),
{
    let ghost m = val4(*n);
    let ghost va = val4(*a);
    let ghost vb = val4(*b);
    let mut r = [0u64; 4];
    let mut i: usize = 256;
    proof {
        lemma_val4_bounds(*b);
        lemma2_to64_rest();
        lemma_pow2_adds(64, 64);
        lemma_pow2_adds(128, 128);
        assert(pow2(128) == 0x1_0000_0000_0000_0000_0000_0000_0000_0000nat);
        assert(pow2(128) * pow2(128) == two_pow_256()) by (nonlinear_arith)
            requires
                pow2(128) == 0x1_0000_0000_0000_0000_0000_0000_0000_0000nat,
        ;
        assert(pow2(256) == two_pow_256());
        assert(vb / (pow2(256) as int) == 0) by {
            lemma_basic_div(vb, pow2(256) as int);
        }
        lemma_mul_basics(va);
        lemma_small_mod(0, m as nat);
    }
    while i > 0
        invariant
            i <= 256,
            m == val4(*n),
            va == val4(*a),
            vb == val4(*b),
            modulus_ok(*n),
            va < m,
            vb >= 0,
            val4(r) < m,
            val4(r) == (va * (vb / (pow2(i as nat) as int))) % m,
        decreases i,
    {
        i -= 1;
        let ghost p = vb / (pow2((i + 1) as nat) as int);
        let ghost rv = val4(r);
        r = add_mod(&r, &r, n);
        let bit = (b[i / 64] >> (i % 64) as u64) & 1;
        let t = add_mod(&r, a, n);
        r = select4(&r, &t, bit == 1);
        proof {
            lemma_val4_bit(*b, i as nat);
            lemma_div_pow2_step(vb, i as nat);
            let q = vb / (pow2(i as nat) as int);
            let bv = q % 2;
            assert(bit as int == bv);
            assert(q == 2 * p + bv);
            // rv == (va * p) % m; the new value is (2 * rv + bv * va) % m.
            lemma_mod_bound(va * p, m);
            lemma_add_mod_noop(va * p, va * p, m);
            assert((rv + rv) % m == (va * p + va * p) % m);
            if bv == 1 {
                lemma_add_mod_noop(va * p + va * p, va, m);
                lemma_mod_twice(va * p + va * p, m);
                lemma_small_mod(va as nat, m as nat);
                assert(va * q == va * p + va * p + va) by (nonlinear_arith)
                    requires
                        q == 2 * p + 1,
                ;
            } else {
                assert(va * q == va * p + va * p) by (nonlinear_arith)
                    requires
                        q == 2 * p,
                ;
            }
        }
    }
    proof {
        assert(pow2(0) == 1) by {
            lemma2_to64();
        }
        assert(vb / 1 == vb);
    }
    r
}

/// The field element with raw value `limbs`, i.e. `limbs mod n`.
pub fn from_raw(limbs: [u64; 4], n: &[u64; 4]) -> (r: [u64; 4])
    requires
        modulus_ok(*n),
    ensures
        val4(r) == val4(limbs) % val4(*n),
        val4(r) < val4(*n),
{
    let one = [1u64, 0, 0, 0];
    let r = mul_mod(&one, &limbs, n);
    assert(val4(one) == 1);
    assert(1 * val4(limbs) == val4(limbs));
    r
}

} // verus!
