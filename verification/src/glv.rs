//! GLV (Gallant-Lambert-Vanstone) optimization for scalar multiplication.
//!
//! For curves with j-invariant 0 (y² = x³ + b), there exists an efficient
//! endomorphism φ(x,y) = (ζx, y) where ζ is a cube root of unity. The GLV
//! method decomposes a scalar k into two half-size scalars k₁, k₂ such that
//! [k]P = [k₁]P + [k₂]φ(P), which is faster via Shamir's trick.
//!
//! The scalar decomposition uses only division by powers of two (bit shifts)
//! for constant-time operation.

use vstd::arithmetic::div_mod::*;
use vstd::arithmetic::mul::*;
use vstd::arithmetic::power2::*;
use vstd::prelude::*;

use crate::arithmetic::{adc, mac, radix};
use crate::ct::ct_eq_u64;
use crate::group::{
    CurvePoint, lemma_identity_left, lemma_ladder_step, lemma_smul_add, lemma_smul_identity,
    lemma_smul_mod, lemma_smul_mul, lemma_smul_neg_complement, lemma_smul_one, lemma_smul_valid,
    smul,
};
use crate::high_part::{
    high_part, lemma_column_step, lemma_column_total_bound, lemma_high_part_bounds,
    lemma_high_part_exact, lemma_high_part_within_one, lemma_kept_sum_below, start_col,
};
use crate::limbs::{
    col_upto, colval, lemma_col_upto_low, lemma_col_upto_range, lemma_div_pow2_step,
    lemma_limbs_val_take_zeros, lemma_limbs_val_update, lemma_val4_bit, lemma_val4_bounds,
    lemma_wt_add, lemma_wt_pos, lemma_wt_values, limbs_val, term, val4, wt,
};
use crate::scalar::{add_mod, from_raw, modulus_ok, mul_mod, neg_mod, select4, sub_mod};

verus! {

/// GLV constants for a specific curve.
///
/// Following the secp256k1 approach: we store only b₁, b₂ and λ.
/// Decomposition uses modular scalar arithmetic:
///   c₁ = (g₁ · k) >> 384
///   c₂ = (g₂ · k) >> 384
///   k₂ = c₁·(−b₁) + c₂·(−b₂) mod n
///   k₁ = k − k₂·λ mod n
pub struct GlvParams {
    /// −b₁ mod n (4 limbs, raw non-Montgomery scalar)
    pub minus_b1: [u64; 4],
    /// −b₂ mod n (4 limbs, raw non-Montgomery scalar)
    pub minus_b2: [u64; 4],
    /// Precomputed g₁ = round(2^384 · |b₂| / n), stored as 4 limbs
    pub g1: [u64; 4],
    /// Precomputed g₂ = round(2^384 · |b₁| / n), stored as 5 limbs
    pub g2: [u64; 5],
}

// --- Pallas GLV constants ---
// Scalar field order: q = 0x40000000000000000000000000000000224698fc0994a8dd8c46eb2100000001
// LAMBDA = Fq::ZETA
/// −b₁ mod q for Pallas.
pub const PALLAS_MINUS_B1: [u64; 4] = [0x8cb1279300000000, 0x49e69d1640a89953, 0x0, 0x0];

/// −b₂ mod q for Pallas.
pub const PALLAS_MINUS_B2: [u64; 4] = [
    0x992d30ed00000000,
    0x224698fc094cf91b,
    0x0,
    0x4000000000000000,
];

/// g₁ for Pallas.
pub const PALLAS_G1: [u64; 4] = [
    0x7bf422ae2d81872b,
    0xffffffffff666e35,
    0xcc66e8d000000003,
    0x11ebf07,
];

/// g₂ for Pallas.
pub const PALLAS_G2: [u64; 5] = [
    0x4a95a2d972171db4,
    0x61afdea68480fa55,
    0x32c49e4bffffffff,
    0x279a745902a2654e,
    0x1,
];

// --- Vesta GLV constants ---
// Scalar field order: p = 0x40000000000000000000000000000000224698fc094cf91b992d30ed00000001
// LAMBDA = Fp::ZETA
/// −b₁ mod p for Vesta.
pub const VESTA_MINUS_B1: [u64; 4] = [0x8cb1279300000001, 0x49e69d1640a89953, 0x0, 0x0];

/// −b₂ mod p for Vesta.
pub const VESTA_MINUS_B2: [u64; 4] = [
    0xa61376b900000002,
    0x224698fc09054959,
    0x0,
    0x4000000000000000,
];

/// g₁ for Vesta.
pub const VESTA_G1: [u64; 4] = [
    0x7bf563dd917ae05e,
    0xffffffffff666e35,
    0xcc66e8cffffffffb,
    0x11ebf07,
];

/// g₂ for Vesta.
pub const VESTA_G2: [u64; 5] = [
    0x841414c24bf99a83,
    0x61afdea685cc1578,
    0x32c49e4c00000003,
    0x279a745902a2654e,
    0x1,
];

/// The GLV constants of Pallas.
pub fn pallas_glv() -> (r: GlvParams)
    ensures
        r.minus_b1 == PALLAS_MINUS_B1,
        r.minus_b2 == PALLAS_MINUS_B2,
        r.g1 == PALLAS_G1,
        r.g2 == PALLAS_G2,
{
    GlvParams { minus_b1: PALLAS_MINUS_B1, minus_b2: PALLAS_MINUS_B2, g1: PALLAS_G1, g2: PALLAS_G2 }
}

/// The GLV constants of Vesta.
pub fn vesta_glv() -> (r: GlvParams)
    ensures
        r.minus_b1 == VESTA_MINUS_B1,
        r.minus_b2 == VESTA_MINUS_B2,
        r.g1 == VESTA_G1,
        r.g2 == VESTA_G2,
{
    GlvParams { minus_b1: VESTA_MINUS_B1, minus_b2: VESTA_MINUS_B2, g1: VESTA_G1, g2: VESTA_G2 }
}

/// Maximum number of bits in the decomposed half-size scalars.
/// The GLV decomposition produces |k₁|, |k₂| < ~2^129, and after
/// negation to ensure positivity, the values are < n/2 < 2^254.
/// However, we only need to iterate over 129 bits since the
/// decomposed scalars are bounded by the lattice vector norms (~2^128).
/// We use 130 to be safe (matching secp256k1's constant-time approach).
pub const GLV_SCALAR_BITS: usize = 130;

/// Compute the high limbs of a product, `(a * b) >> (skip * 64)`.
///
/// Only computes from column (skip - 1) onward; each column's total is carried
/// in full (two limbs) into the next. With no column dropped (`skip <= 1`) the
/// result is exact. Otherwise it never exceeds the exact high part, falls short
/// of it by at most one when the dropped columns stay below `2^(64 * skip)`, as
/// they always do for `skip <= 2`, and by at most 4 in any case, which is
/// tolerable for GLV. Limbs of `out` past the product are set to zero, so the
/// result does not depend on what `out` held (`lemma_mul_high_deterministic`).
pub fn mul_high(a: &[u64], b: &[u64; 4], skip: usize, out: &mut [u64])
    requires
        a@.len() + 4 <= usize::MAX,
        skip < a@.len() + 4 ==> a@.len() + 4 - skip <= old(out)@.len(),
    ensures
        final(out)@.len() == old(out)@.len(),
        limbs_val(final(out)@) == high_part(a@, b@, skip as int),
        forall|t: int|
            0 <= t < final(out)@.len() && a@.len() + 4 <= skip + t ==> final(out)@[t] == 0,
        skip <= 1 ==> limbs_val(final(out)@) == limbs_val(a@) * limbs_val(b@) / wt(skip as nat),
        limbs_val(final(out)@) <= limbs_val(a@) * limbs_val(b@) / wt(skip as nat),
        limbs_val(a@) * limbs_val(b@) / wt(skip as nat) - 4 <= limbs_val(final(out)@),
        skip <= 2 || colval(a@, b@, 0, start_col(skip as int)) < wt(skip as nat) ==> limbs_val(
            a@,
        ) * limbs_val(b@) / wt(skip as nat) - 1 <= limbs_val(final(out)@),
{
    let n = a.len();
    let total = n + 4;
    let out_len = out.len();
    let mut z: usize = 0;
    while z < out_len
        invariant
            out_len == out@.len(),
            z <= out_len,
            forall|t: int| 0 <= t < z ==> out@[t] == 0,
        decreases out_len - z,
    {
        out[z] = 0;
        z += 1;
    }

    let start = if skip > 0 {
        skip - 1
    } else {
        0
    };
    let mut carry = 0u64;
    let mut carry_hi = 0u64;

    let ghost s = start as int;
    let ghost ww = wt(skip as nat);
    let ghost mut low: int = 0;
    proof {
        lemma_wt_pos(skip as nat);
        lemma_wt_pos(s as nat);
        lemma_limbs_val_take_zeros(out@, 0);
        assert(out@.take(0) =~= Seq::<u64>::empty());
        assert(limbs_val(out@) == 0);
        assert(colval(a@, b@, s, s) == 0);
        lemma_mul_basics(ww);
        lemma_mul_basics(wt(s as nat));
    }
    let mut col = start;
    while col < total
        invariant
            n == a@.len(),
            total == n + 4,
            s == start_col(skip as int),
            start as int == s,
            ww == wt(skip as nat),
            start <= col,
            col <= total || col == start,
            out@.len() == out_len,
            skip < total ==> total - skip <= out_len,
            carry_hi <= 3,
            0 <= low < wt((if col < skip {
                col
            } else {
                skip
            }) as nat),
            0 <= limbs_val(out@),
            colval(a@, b@, s, col as int) == low + ww * limbs_val(out@) + (carry + carry_hi
                * radix()) * wt(col as nat),
            forall|t: int| 0 <= t < out_len && col <= skip + t ==> out@[t] == 0,
        decreases total - col,
    {
        let mut acc_lo = carry;
        let mut acc_hi = carry_hi;
        let mut acc_top = 0u64;

        let j_min = if col >= n {
            col - n + 1
        } else {
            0
        };
        let j_max = if col < 4 {
            col + 1
        } else {
            4
        };
        proof {
            lemma_col_upto_low(a@, b@, col as int, j_min as int);
        }

        let ghost cin = carry + carry_hi * radix();
        let mut j = j_min;
        while j < j_max
            invariant
                n == a@.len(),
                col < total,
                total == n + 4,
                j_min <= j <= j_max,
                j_max <= 4,
                j_max <= col + 1,
                col < n + j_min,
                acc_top <= j - j_min,
                acc_lo + acc_hi * radix() + acc_top * (radix() * radix()) == cin + col_upto(
                    a@,
                    b@,
                    col as int,
                    j as int,
                ),
            decreases j_max - j,
        {
            let i = col - j;
            let ghost old_lo = acc_lo;
            let ghost old_hi = acc_hi;
            let ghost old_top = acc_top;
            let (lo, hi) = mac(acc_lo, a[i], b[j], 0);
            let (hi_sum, overflow) = adc(acc_hi, hi, 0);
            proof {
                assert(overflow <= 1) by (nonlinear_arith)
                    requires
                        hi_sum + overflow * radix() == old_hi + hi,
                        old_hi < radix(),
                        hi < radix(),
                        hi_sum >= 0,
                        radix() == 0x1_0000_0000_0000_0000int,
                ;
                assert(term(a@, b@, col as int, j as int) == a@[i as int] * b@[j as int]);
                assert(lo + hi_sum * radix() + (old_top + overflow) * (radix() * radix())
                    == old_lo + old_hi * radix() + old_top * (radix() * radix()) + a@[i as int]
                    * b@[j as int]) by (nonlinear_arith)
                    requires
                        lo + hi * radix() == old_lo + a@[i as int] * b@[j as int] + 0,
                        hi_sum + overflow * radix() == old_hi + hi,
                ;
            }
            acc_lo = lo;
            acc_hi = hi_sum;
            acc_top += overflow;
            j += 1;
        }
        let ghost old_out = out@;
        proof {
            lemma_col_upto_range(a@, b@, col as int, j_max as int);
            lemma_column_total_bound(a@, b@, col as int, cin);
            assert(acc_top <= 3) by (nonlinear_arith)
                requires
                    acc_lo + acc_hi * radix() + acc_top * (radix() * radix()) < 4 * (radix()
                        * radix()),
                    acc_lo >= 0,
                    acc_hi >= 0,
                    radix() > 0,
            ;
            lemma_column_step(
                a@,
                b@,
                s,
                col as int,
                low + ww * limbs_val(old_out),
                cin,
                acc_lo as int,
                acc_hi as int,
                acc_top as int,
            );
        }

        if col >= skip {
            out[col - skip] = acc_lo;
            proof {
                let t = (col - skip) as int;
                assert(old_out[t] == 0);
                assert(out@ == old_out.update(t, acc_lo));
                lemma_limbs_val_update(old_out, t, acc_lo);
                lemma_wt_add(skip as nat, t as nat);
                assert((skip + t) as nat == col as nat);
                lemma_mul_is_distributive_add(ww, limbs_val(old_out), acc_lo * wt(t as nat));
                lemma_mul_is_associative(ww, acc_lo as int, wt(t as nat));
                lemma_mul_is_commutative(ww, acc_lo as int);
                lemma_mul_is_associative(acc_lo as int, ww, wt(t as nat));
                lemma_wt_pos(t as nat);
                lemma_mul_nonnegative(acc_lo as int, wt(t as nat));
            }
        } else {
            proof {
                assert(col + 1 == skip);
                lemma_wt_pos(col as nat);
                assert(wt((col + 1) as nat) == radix() * wt(col as nat));
                assert(low + acc_lo * wt(col as nat) < wt((col + 1) as nat)) by (nonlinear_arith)
                    requires
                        0 <= low < wt(col as nat),
                        0 <= acc_lo < radix(),
                        wt((col + 1) as nat) == radix() * wt(col as nat),
                ;
                lemma_mul_nonnegative(acc_lo as int, wt(col as nat));
                low = low + acc_lo * wt(col as nat);
            }
        }
        carry = acc_hi;
        carry_hi = acc_top;
        col += 1;
    }

    proof {
        let o = out@;
        let hi = total as int;
        let lv = limbs_val(o);
        let cv = colval(a@, b@, s, hi);
        let cin = carry + carry_hi * radix();
        if start >= total {
            assert(col == start);
            assert(colval(a@, b@, s, col as int) == 0);
            assert(cv == 0);
            lemma_wt_pos(col as nat);
            lemma_mul_nonnegative(ww, lv);
            lemma_mul_nonnegative(cin, wt(col as nat));
            assert(ww * lv == 0);
            lemma_mul_is_commutative(ww, lv);
            lemma_fundamental_div_mod_converse(cv, ww, lv, 0);
        } else {
            assert(col == total);
            assert(skip <= total);
            lemma_kept_sum_below(a@, b@, s);
            lemma_wt_pos(hi as nat);
            lemma_mul_nonnegative(ww, lv);
            // The carry out of the last column is zero.
            assert(cin == 0) by {
                if cin > 0 {
                    lemma_mul_inequality(1, cin, wt(hi as nat));
                }
            }
            lemma_mul_basics(wt(hi as nat));
            lemma_mul_is_commutative(ww, lv);
            lemma_fundamental_div_mod_converse(cv, ww, lv, low);
        }
        lemma_high_part_bounds(a@, b@, skip as int);
        if skip <= 1 {
            lemma_high_part_exact(a@, b@, skip as int);
        }
        if skip <= 2 || colval(a@, b@, 0, s) < ww {
            lemma_high_part_within_one(a@, b@, skip as int);
        }
    }
}

// ---------------------------------------------------------------------------
// The GLV decomposition and the multiplication.
// ---------------------------------------------------------------------------
/// `2^130`: every bit that the ladder reads lies below it.
pub open spec fn ladder_bound() -> int {
    0x4_0000_0000_0000_0000_0000_0000_0000_0000int
}

/// `2^192`: a decomposed scalar at or above it is read as negative.
pub open spec fn negative_threshold() -> int {
    0x1_0000_0000_0000_0000_0000_0000_0000_0000_0000_0000_0000_0000int
}

/// c₁ = (g₁ · k) >> 384, as computed by `mul_high`.
pub open spec fn glv_c1(params: GlvParams, k: [u64; 4]) -> int {
    high_part(params.g1@, k@, 6)
}

/// c₂ = (g₂ · k) >> 384, as computed by `mul_high`.
pub open spec fn glv_c2(params: GlvParams, k: [u64; 4]) -> int {
    high_part(params.g2@, k@, 6)
}

/// k₂ = c₁·(−b₁) + c₂·(−b₂) mod n.
pub open spec fn glv_k2(params: GlvParams, k: [u64; 4], n: int) -> int {
    (glv_c1(params, k) * val4(params.minus_b1) + glv_c2(params, k) * val4(params.minus_b2)) % n
}

/// k₁ = k − k₂·λ mod n.
pub open spec fn glv_k1(params: GlvParams, k: [u64; 4], n: int, lambda: int) -> int {
    (val4(k) - glv_k2(params, k, n) * lambda) % n
}

/// A reduced scalar whose top limb is not zero is read as the negative `x - n`.
pub open spec fn glv_is_negative(x: int) -> bool {
    x >= negative_threshold()
}

/// The magnitude that the ladder uses for a decomposed scalar `x`.
pub open spec fn glv_magnitude(x: int, n: int) -> int {
    if glv_is_negative(x) {
        (-x) % n
    } else {
        x
    }
}

/// The signed integer that a decomposed scalar `x` stands for.
pub open spec fn glv_signed(x: int, n: int) -> int {
    if glv_is_negative(x) {
        -glv_magnitude(x, n)
    } else {
        x
    }
}

/// Both magnitudes of the decomposition of `k` fit in the ladder's bits.
pub open spec fn glv_decomposition_fits(params: GlvParams, k: [u64; 4], n: int, lambda: int) -> bool {
    &&& glv_magnitude(glv_k1(params, k, n, lambda), n) < ladder_bound()
    &&& glv_magnitude(glv_k2(params, k, n), n) < ladder_bound()
}

/// The first ladder point: `P` or `-P`.
pub open spec fn glv_p1<P: CurvePoint>(point: P, k1: int) -> P {
    if glv_is_negative(k1) {
        point.spec_neg()
    } else {
        point
    }
}

/// The second ladder point: `φ(P)` or `-φ(P)`.
pub open spec fn glv_p2<P: CurvePoint>(point: P, k2: int) -> P {
    if glv_is_negative(k2) {
        point.spec_endo().spec_neg()
    } else {
        point.spec_endo()
    }
}

/// What `glv_mul` returns: `[|k₁| mod 2^130]p₁ + [|k₂| mod 2^130]p₂`.
pub open spec fn glv_result<P: CurvePoint>(
    point: P,
    params: GlvParams,
    k: [u64; 4],
    n: int,
    lambda: int,
) -> P {
    let k1 = glv_k1(params, k, n, lambda);
    let k2 = glv_k2(params, k, n);
    smul(glv_p1(point, k1), (glv_magnitude(k1, n) % ladder_bound()) as nat).spec_add(
        smul(glv_p2(point, k2), (glv_magnitude(k2, n) % ladder_bound()) as nat),
    )
}

/// The bits `i .. 130` of `v`, read as a number.
pub open spec fn window(v: int, i: nat) -> int {
    (v / (pow2(i) as int)) % (pow2((130 - i) as nat) as int)
}

proof fn lemma_val4_of_prefix2(s: Seq<u64>, a: [u64; 4])
    requires
        s.len() == 2,
        a[0] == s[0],
        a[1] == s[1],
        a[2] == 0,
        a[3] == 0,
    ensures
        val4(a) == limbs_val(s),
{
    lemma_wt_values();
    reveal_with_fuel(limbs_val, 3);
    assert(s.drop_last().drop_last() =~= Seq::<u64>::empty());
    assert(wt(0) == 1);
}

proof fn lemma_val4_of_prefix3(s: Seq<u64>, a: [u64; 4])
    requires
        s.len() == 3,
        a[0] == s[0],
        a[1] == s[1],
        a[2] == s[2],
        a[3] == 0,
    ensures
        val4(a) == limbs_val(s),
{
    lemma_wt_values();
    reveal_with_fuel(limbs_val, 4);
    assert(s.drop_last().drop_last().drop_last() =~= Seq::<u64>::empty());
    assert(wt(0) == 1);
}

/// Bit `i` of `k`, read from its limb.
fn bit_at(k: &[u64; 4], i: usize) -> (b: bool)
    requires
        i < 256,
    ensures
        b == ((val4(*k) / (pow2(i as nat) as int)) % 2 == 1),
{
    proof {
        lemma_val4_bit(*k, i as nat);
    }
    ((k[i / 64] >> ((i % 64) as u64)) & 1) == 1
}

/// Taking one more bit into the window.
proof fn lemma_window_step(v: int, i: nat)
    requires
        v >= 0,
        i < 130,
    ensures
        window(v, i) == 2 * window(v, i + 1) + (v / (pow2(i) as int)) % 2,
{
    lemma_div_pow2_step(v, i);
    lemma_pow2_pos(i);
    lemma_pow2_pos((130 - i - 1) as nat);
    lemma_pow2_adds(1, (130 - i - 1) as nat);
    lemma2_to64();
    assert((1 + (130 - i - 1)) as nat == (130 - i) as nat);
    let y = v / (pow2(i) as int);
    lemma_breakdown(y, 2, pow2((130 - i - 1) as nat) as int);
    lemma_pow2_adds(i, 1);
    lemma_div_denominator(v, pow2(i) as int, 2);
}

/// The bits of the top position alone.
proof fn lemma_window_top(v: int)
    requires
        v >= 0,
    ensures
        window(v, 129) == (v / (pow2(129) as int)) % 2,
{
    lemma2_to64();
}

/// The whole window is `v mod 2^130`.
proof fn lemma_window_bottom(v: int)
    ensures
        window(v, 0) == v % ladder_bound(),
{
    lemma2_to64();
    lemma2_to64_rest();
    lemma_pow2_adds(64, 64);
    lemma_pow2_adds(128, 2);
    assert(pow2(130) == ladder_bound());
}

/// The point that the ladder adds for the bits `b1` and `b2`.
proof fn lemma_select_sum<P: CurvePoint>(p1: P, p2: P, b1: nat, b2: nat)
    requires
        p1.spec_valid(),
        p2.spec_valid(),
        b1 <= 1,
        b2 <= 1,
    ensures
        smul(p1, b1).spec_add(smul(p2, b2)) == (if b2 == 1 {
            if b1 == 1 {
                p1.spec_add(p2)
            } else {
                p2
            }
        } else {
            if b1 == 1 {
                p1
            } else {
                P::spec_identity()
            }
        }),
{
    P::lemma_valid(p1, p2);
    lemma_smul_one(p1);
    lemma_smul_one(p2);
    lemma_identity_left(p2);
    P::lemma_add_identity(p1);
    P::lemma_add_identity(P::spec_identity());
}

/// The GLV decomposition of a reduced scalar `k`: the magnitudes of k₁ and k₂
/// as raw limbs, and whether each stands for a negative number.
fn glv_decompose(
    scalar: &[u64; 4],
    params: &GlvParams,
    modulus: &[u64; 4],
    lambda: &[u64; 4],
) -> (r: ([u64; 4], bool, [u64; 4], bool))
    requires
        modulus_ok(*modulus),
        val4(*scalar) < val4(*modulus),
        val4(*lambda) < val4(*modulus),
    ensures
        ({
            let n = val4(*modulus);
            let k1 = glv_k1(*params, *scalar, n, val4(*lambda));
            let k2 = glv_k2(*params, *scalar, n);
            &&& val4(r.0) == glv_magnitude(k1, n)
            &&& r.1 == glv_is_negative(k1)
            &&& val4(r.2) == glv_magnitude(k2, n)
            &&& r.3 == glv_is_negative(k2)
        }),
{
    let ghost n = val4(*modulus);
    let ghost lam = val4(*lambda);
    let k_raw = *scalar;

    // c₁ = (g₁ · k) >> 384, c₂ = (g₂ · k) >> 384
    let mut c1_limbs = [0u64; 2];
    mul_high(&params.g1, &k_raw, 6, &mut c1_limbs);
    let c1_raw = [c1_limbs[0], c1_limbs[1], 0u64, 0u64];

    let mut c2_limbs = [0u64; 3];
    mul_high(&params.g2, &k_raw, 6, &mut c2_limbs);
    let c2_raw = [c2_limbs[0], c2_limbs[1], c2_limbs[2], 0u64];
    proof {
        lemma_val4_of_prefix2(c1_limbs@, c1_raw);
        lemma_val4_of_prefix3(c2_limbs@, c2_raw);
    }

    let c1 = from_raw(c1_raw, modulus);
    let c2 = from_raw(c2_raw, modulus);

    // k₂ = c₁·(−b₁) + c₂·(−b₂) mod n
    let minus_b1 = from_raw(params.minus_b1, modulus);
    let minus_b2 = from_raw(params.minus_b2, modulus);
    let t1 = mul_mod(&c1, &minus_b1, modulus);
    let t2 = mul_mod(&c2, &minus_b2, modulus);
    let k2 = add_mod(&t1, &t2, modulus);

    // k₁ = k − k₂·λ mod n
    let k2_lambda = mul_mod(&k2, lambda, modulus);
    let k1 = sub_mod(scalar, &k2_lambda, modulus);
    proof {
        let x1 = val4(c1_raw) * val4(params.minus_b1);
        let x2 = val4(c2_raw) * val4(params.minus_b2);
        lemma_mul_mod_noop_general(val4(c1_raw), val4(params.minus_b1), n);
        lemma_mul_mod_noop_general(val4(c2_raw), val4(params.minus_b2), n);
        lemma_add_mod_noop(x1, x2, n);
        assert(val4(k2) == glv_k2(*params, *scalar, n));
        lemma_sub_mod_noop_right(val4(*scalar), val4(k2) * lam, n);
        assert(val4(k1) == glv_k1(*params, *scalar, n, lam));
    }

    // Determine sign: positive decomposition values are < 2^130 (limb[3] == 0),
    // while negative values are represented as n - |val| ≈ 2^254 (limb[3] != 0).
    // Use constant-time comparison.
    let k1_neg = !ct_eq_u64(k1[3], 0);
    let k2_neg = !ct_eq_u64(k2[3], 0);
    proof {
        lemma_val4_bounds(k1);
        lemma_val4_bounds(k2);
    }

    let k1_final = select4(&k1, &neg_mod(&k1, modulus), k1_neg);
    let k2_final = select4(&k2, &neg_mod(&k2, modulus), k2_neg);
    (k1_final, k1_neg, k2_final, k2_neg)
}

/// Shamir's trick over `GLV_SCALAR_BITS` bits: `[k₁ mod 2^130]p₁ + [k₂ mod 2^130]p₂`
/// in a fixed number of steps.
fn shamir_ladder<P: CurvePoint>(p1: &P, p2: &P, k1_final: &[u64; 4], k2_final: &[u64; 4]) -> (r: P)
    requires
        p1.spec_valid(),
        p2.spec_valid(),
    ensures
        r == smul(*p1, (val4(*k1_final) % ladder_bound()) as nat).spec_add(
            smul(*p2, (val4(*k2_final) % ladder_bound()) as nat),
        ),
{
    let ghost v1 = val4(*k1_final);
    let ghost v2 = val4(*k2_final);
    let p12 = p1.add_point(p2);
    proof {
        P::lemma_valid(*p1, *p2);
    }

    // Identity element
    let identity = p1.add_point(&p1.neg_point());
    proof {
        P::lemma_add_neg(*p1);
        lemma_val4_bounds(*k1_final);
        lemma_val4_bounds(*k2_final);
    }

    // Constant-time Shamir's trick: always iterate GLV_SCALAR_BITS bits
    // to avoid leaking scalar magnitude through timing.
    // Initialize with top bit
    let b1 = bit_at(k1_final, GLV_SCALAR_BITS - 1);
    let b2 = bit_at(k2_final, GLV_SCALAR_BITS - 1);
    let s01 = P::select(&identity, p1, b1);
    let s23 = P::select(p2, &p12, b1);
    let mut acc = P::select(&s01, &s23, b2);
    proof {
        lemma_window_top(v1);
        lemma_window_top(v2);
        lemma_select_sum(*p1, *p2, window(v1, 129) as nat, window(v2, 129) as nat);
    }

    // Process remaining bits (fixed count, no data-dependent branching)
    let mut i = GLV_SCALAR_BITS - 1;
    while i > 0
        invariant
            i < GLV_SCALAR_BITS,
            v1 == val4(*k1_final),
            v2 == val4(*k2_final),
            v1 >= 0,
            v2 >= 0,
            p1.spec_valid(),
            p2.spec_valid(),
            identity == P::spec_identity(),
            p12 == p1.spec_add(*p2),
            acc == smul(*p1, window(v1, i as nat) as nat).spec_add(
                smul(*p2, window(v2, i as nat) as nat),
            ),
        decreases i,
    {
        i -= 1;
        let ghost t1 = window(v1, (i + 1) as nat);
        let ghost t2 = window(v2, (i + 1) as nat);
        proof {
            lemma_pow2_pos((130 - i - 1) as nat);
            lemma_mod_bound(v1 / (pow2((i + 1) as nat) as int), pow2((130 - i - 1) as nat) as int);
            lemma_mod_bound(v2 / (pow2((i + 1) as nat) as int), pow2((130 - i - 1) as nat) as int);
            lemma_smul_valid(*p1, t1 as nat);
            lemma_smul_valid(*p2, t2 as nat);
            P::lemma_valid(smul(*p1, t1 as nat), smul(*p2, t2 as nat));
            P::lemma_valid(*p1, *p2);
            P::lemma_valid(acc, acc);
        }
        acc = acc.add_point(&acc);  // double

        let b1 = bit_at(k1_final, i);
        let b2 = bit_at(k2_final, i);
        let s01 = P::select(&identity, p1, b1);
        let s23 = P::select(p2, &p12, b1);
        let to_add = P::select(&s01, &s23, b2);
        proof {
            P::lemma_valid(*p1, *p2);
            assert(to_add.spec_valid());
        }
        acc = acc.add_point(&to_add);
        proof {
            let d1 = (v1 / (pow2(i as nat) as int)) % 2;
            let d2 = (v2 / (pow2(i as nat) as int)) % 2;
            lemma_window_step(v1, i as nat);
            lemma_window_step(v2, i as nat);
            lemma_pow2_pos(i as nat);
            lemma_mod_bound(v1 / (pow2(i as nat) as int), 2);
            lemma_mod_bound(v2 / (pow2(i as nat) as int), 2);
            lemma_select_sum(*p1, *p2, d1 as nat, d2 as nat);
            lemma_ladder_step(*p1, *p2, t1 as nat, t2 as nat, d1 as nat, d2 as nat);
        }
    }
    proof {
        lemma_window_bottom(v1);
        lemma_window_bottom(v2);
    }
    acc
}

/// GLV scalar multiplication: compute [k]P using the endomorphism.
///
/// Decomposes k = k₁ + k₂·λ via the lattice method, then computes
/// [k₁]P + [k₂]φ(P) using Shamir's trick.
///
/// The scalar field is arithmetic modulo `modulus` on raw (non-Montgomery)
/// limbs, `scalar` is the reduced raw scalar k, and `lambda` the raw cube
/// root of unity λ for which φ(P) = [λ]P. The point operations, including
/// φ, come from `P`.
pub fn glv_mul<P: CurvePoint>(
    point: &P,
    scalar: &[u64; 4],
    params: &GlvParams,
    modulus: &[u64; 4],
    lambda: &[u64; 4],
) -> (r: P)
    requires
        point.spec_valid(),
        modulus_ok(*modulus),
        val4(*scalar) < val4(*modulus),
        val4(*lambda) < val4(*modulus),
    ensures
        r == glv_result(*point, *params, *scalar, val4(*modulus), val4(*lambda)),
        glv_decomposition_fits(*params, *scalar, val4(*modulus), val4(*lambda)) && smul(
            *point,
            val4(*modulus) as nat,
        ) == P::spec_identity() && point.spec_endo() == smul(*point, val4(*lambda) as nat) ==> r
            == smul(*point, val4(*scalar) as nat),
{
    proof {
        lemma_val4_bounds(*scalar);
        lemma_val4_bounds(*lambda);
        if glv_decomposition_fits(*params, *scalar, val4(*modulus), val4(*lambda)) && smul(
            *point,
            val4(*modulus) as nat,
        ) == P::spec_identity() && point.spec_endo() == smul(*point, val4(*lambda) as nat) {
            lemma_glv_result_is_scalar_mul(
                *point,
                *params,
                *scalar,
                val4(*modulus),
                val4(*lambda),
            );
        }
    }
    let (k1_final, k1_neg, k2_final, k2_neg) = glv_decompose(scalar, params, modulus, lambda);

    // Conditionally negate points
    let p1 = P::select(point, &point.neg_point(), k1_neg);
    let p2_base = point.endo();
    proof {
        P::lemma_valid(*point, *point);
        P::lemma_valid(p2_base, p2_base);
    }
    let p2 = P::select(&p2_base, &p2_base.neg_point(), k2_neg);
    shamir_ladder(&p1, &p2, &k1_final, &k2_final)
}

/// GLV multiplication is scalar multiplication: when the decomposition of `k`
/// fits in the ladder, `n` annihilates `P` and `φ(P) = [λ]P`, the point that
/// `glv_mul` returns is `[k]P`.
pub proof fn lemma_glv_result_is_scalar_mul<P: CurvePoint>(
    point: P,
    params: GlvParams,
    k: [u64; 4],
    n: int,
    lambda: int,
)
    requires
        point.spec_valid(),
        n > 1,
        0 <= val4(k) < n,
        0 <= lambda < n,
        glv_decomposition_fits(params, k, n, lambda),
        smul(point, n as nat) == P::spec_identity(),
        point.spec_endo() == smul(point, lambda as nat),
    ensures
        glv_result(point, params, k, n, lambda) == smul(point, val4(k) as nat),
{
    let k1 = glv_k1(params, k, n, lambda);
    let k2 = glv_k2(params, k, n);
    lemma_mod_bound(val4(k) - k2 * lambda, n);
    lemma_mod_bound(glv_c1(params, k) * val4(params.minus_b1) + glv_c2(params, k) * val4(
        params.minus_b2,
    ), n);
    let m1 = glv_magnitude(k1, n);
    let m2 = glv_magnitude(k2, n);
    lemma_mod_bound(-k1, n);
    lemma_mod_bound(-k2, n);
    lemma_small_mod(m1 as nat, ladder_bound() as nat);
    lemma_small_mod(m2 as nat, ladder_bound() as nat);
    let q = point.spec_endo();
    P::lemma_valid(point, point);
    // [n]φ(P) is the identity too.
    lemma_smul_mul(point, lambda as nat, n as nat);
    lemma_smul_mul(point, n as nat, lambda as nat);
    lemma_mul_is_commutative(lambda, n);
    lemma_smul_identity::<P>(lambda as nat);
    assert(smul(q, n as nat) == P::spec_identity());
    // The first term is [k₁]P.
    if glv_is_negative(k1) {
        lemma_fundamental_div_mod_converse(-k1, n, -1, n - k1);
        lemma_smul_neg_complement(point, k1 as nat, n as nat);
        assert((n - k1) as nat == (n as nat - k1 as nat) as nat);
    }
    assert(smul(glv_p1(point, k1), m1 as nat) == smul(point, k1 as nat));
    // The second term is [k₂]φ(P) = [λ·k₂]P.
    if glv_is_negative(k2) {
        lemma_fundamental_div_mod_converse(-k2, n, -1, n - k2);
        lemma_smul_neg_complement(q, k2 as nat, n as nat);
        assert((n - k2) as nat == (n as nat - k2 as nat) as nat);
    }
    assert(smul(glv_p2(point, k2), m2 as nat) == smul(q, k2 as nat));
    lemma_smul_mul(point, lambda as nat, k2 as nat);
    lemma_mul_nonnegative(lambda, k2);
    // [k₁]P + [λ·k₂]P = [k₁ + λ·k₂]P = [k]P.
    lemma_smul_add(point, k1 as nat, (lambda * k2) as nat);
    lemma_smul_mod(point, (k1 + lambda * k2) as nat, n as nat);
    lemma_add_mod_noop(val4(k) - k2 * lambda, lambda * k2, n);
    lemma_mod_twice(lambda * k2, n);
    lemma_add_mod_noop(val4(k) - k2 * lambda, lambda * k2, n);
    lemma_mul_is_commutative(k2, lambda);
    lemma_mod_bound(lambda * k2, n);
    assert((k1 + lambda * k2) % n == (val4(k) - k2 * lambda + lambda * k2) % n) by {
        lemma_add_mod_noop(k1, lambda * k2, n);
        lemma_mod_twice(val4(k) - k2 * lambda, n);
        lemma_add_mod_noop(val4(k) - k2 * lambda, lambda * k2, n);
    }
    lemma_small_mod(val4(k) as nat, n as nat);
    assert(((k1 + lambda * k2) as nat) % (n as nat) == val4(k));
}


/// A decomposed scalar and the signed number it stands for agree modulo `n`.
proof fn lemma_signed_congruent(x: int, n: int)
    requires
        n > 0,
    ensures
        glv_signed(x, n) % n == x % n,
{
    if glv_is_negative(x) {
        lemma_fundamental_div_mod(-x, n);
        let q = (-x) / n;
        assert(glv_signed(x, n) == x + n * q);
        lemma_mod_multiples_vanish(q, x, n);
    }
}

/// The decomposition is exact modulo `n`: `k ≡ k₁ + k₂·λ`, both for the
/// reduced scalars and for the signed numbers that the ladder uses.
pub proof fn lemma_glv_decomposition_congruent(params: GlvParams, k: [u64; 4], n: int, lambda: int)
    requires
        n > 0,
    ensures
        (glv_k1(params, k, n, lambda) + glv_k2(params, k, n) * lambda) % n == val4(k) % n,
        (glv_signed(glv_k1(params, k, n, lambda), n) + glv_signed(glv_k2(params, k, n), n)
            * lambda) % n == val4(k) % n,
{
    let k1 = glv_k1(params, k, n, lambda);
    let k2 = glv_k2(params, k, n);
    let s1 = glv_signed(k1, n);
    let s2 = glv_signed(k2, n);
    // k₁ + k₂·λ ≡ (k − k₂·λ) + k₂·λ = k
    lemma_add_mod_noop(val4(k) - k2 * lambda, k2 * lambda, n);
    lemma_mod_twice(val4(k) - k2 * lambda, n);
    lemma_add_mod_noop(k1, k2 * lambda, n);
    // The signed numbers are congruent to the reduced ones.
    lemma_signed_congruent(k1, n);
    lemma_signed_congruent(k2, n);
    lemma_mul_mod_noop_left(s2, lambda, n);
    lemma_mul_mod_noop_left(k2, lambda, n);
    lemma_add_mod_noop(s1, s2 * lambda, n);
    lemma_add_mod_noop(k1, k2 * lambda, n);
}

} // verus!
