//! The GLV multiplication of the Pallas / Vesta cycle: the scalar-field
//! orders, the cube roots of unity λ, and the proof that the decomposition
//! always fits the ladder for these curves.

use vstd::arithmetic::div_mod::*;
use vstd::prelude::*;

use crate::glv::{
    GlvParams, PALLAS_G1, PALLAS_G2, PALLAS_MINUS_B1, PALLAS_MINUS_B2, VESTA_G1, VESTA_G2,
    VESTA_MINUS_B1, VESTA_MINUS_B2, glv_c1, glv_c2, glv_decomposition_fits, glv_magnitude,
    glv_mul, glv_result, ladder_bound, lemma_glv_result_is_scalar_mul, pallas_glv, vesta_glv,
};
use crate::high_part::{glv_g_shape, high_part, lemma_glv_high_part};
use crate::group::{CurvePoint, smul};
use crate::limbs::{lemma_val4, lemma_wt_values, limbs_val, val4, wt};

verus! {

/// The order q of the Pallas scalar field, as raw limbs.
pub const PALLAS_SCALAR_MODULUS: [u64; 4] = [
    0x8c46eb2100000001,
    0x224698fc0994a8dd,
    0x0000000000000000,
    0x4000000000000000,
];

/// λ = Fq::ZETA, the cube root of unity in the Pallas scalar field, as raw limbs.
pub const PALLAS_LAMBDA: [u64; 4] = [
    0x2aa9d2e050aa0e4f,
    0x0fed467d47c033af,
    0x511db4d81cf70f5a,
    0x06819a58283e528e,
];

/// The order p of the Vesta scalar field, as raw limbs.
pub const VESTA_SCALAR_MODULUS: [u64; 4] = [
    0x992d30ed00000001,
    0x224698fc094cf91b,
    0x0000000000000000,
    0x4000000000000000,
];

/// λ = Fp::ZETA, the cube root of unity in the Vesta scalar field, as raw limbs.
pub const VESTA_LAMBDA: [u64; 4] = [
    0x1dad5ebdfdfe4ab9,
    0x1d1f8bd237ad3149,
    0x2caad5dc57aab1b0,
    0x12ccca834acdba71,
];

/// q, the order of the Pallas scalar field.
pub open spec fn pallas_scalar_order() -> int {
    0x40000000000000000000000000000000224698fc0994a8dd8c46eb2100000001int
}

/// The value of Fq::ZETA.
pub open spec fn pallas_lambda() -> int {
    0x06819a58283e528e511db4d81cf70f5a0fed467d47c033af2aa9d2e050aa0e4fint
}

/// p, the order of the Vesta scalar field.
pub open spec fn vesta_scalar_order() -> int {
    0x40000000000000000000000000000000224698fc094cf91b992d30ed00000001int
}

/// The value of Fp::ZETA.
pub open spec fn vesta_lambda() -> int {
    0x12ccca834acdba712caad5dc57aab1b01d1f8bd237ad31491dad5ebdfdfe4ab9int
}

/// The GLV constants of Pallas.
pub open spec fn pallas_glv_params() -> GlvParams {
    GlvParams {
        minus_b1: PALLAS_MINUS_B1,
        minus_b2: PALLAS_MINUS_B2,
        g1: PALLAS_G1,
        g2: PALLAS_G2,
    }
}

/// The GLV constants of Vesta.
pub open spec fn vesta_glv_params() -> GlvParams {
    GlvParams {
        minus_b1: VESTA_MINUS_B1,
        minus_b2: VESTA_MINUS_B2,
        g1: VESTA_G1,
        g2: VESTA_G2,
    }
}

proof fn lemma_val5(g: [u64; 5])
    ensures
        limbs_val(g@) == g[0] + g[1] * 0x1_0000_0000_0000_0000int + g[2]
            * 0x1_0000_0000_0000_0000_0000_0000_0000_0000int + g[3]
            * 0x1_0000_0000_0000_0000_0000_0000_0000_0000_0000_0000_0000_0000int + g[4]
            * 0x1_0000_0000_0000_0000_0000_0000_0000_0000_0000_0000_0000_0000_0000_0000_0000_0000int,
{
    lemma_wt_values();
    let s = g@;
    assert(s.drop_last().drop_last().drop_last().drop_last().drop_last() =~= Seq::<u64>::empty());
    reveal_with_fuel(limbs_val, 6);
    assert(wt(0) == 1);
}

/// The lattice bound for Pallas: when `c₁` and `c₂` fall short of
/// `g₁·k / 2^384` and `g₂·k / 2^384` by less than 3, both decomposed scalars
/// stay below `2^130` in magnitude.
///
/// The short lattice basis is `(a₁, b₁), (a₂, b₂)` with `aᵢ + bᵢ·λ ≡ 0 (mod n)`
/// and `a₁·b₂ − a₂·b₁ = n`; `b₁ < 0 < b₂`, and `g₁`, `g₂` round
/// `2^384·b₂ / n` and `2^384·(−b₁) / n` with the errors `d₁`, `d₂`.
proof fn lemma_pallas_lattice(k: int, c1: int, c2: int)
    requires
        0 <= k < pallas_scalar_order(),
        c1 * 0x1000000000000000000000000000000000000000000000000000000000000000000000000000000000000000000000000int <= 0x11ebf07cc66e8d000000003ffffffffff666e357bf422ae2d81872bint * k,
        0x11ebf07cc66e8d000000003ffffffffff666e357bf422ae2d81872bint * k < c1 * 0x1000000000000000000000000000000000000000000000000000000000000000000000000000000000000000000000000int + 3 * 0x1000000000000000000000000000000000000000000000000000000000000000000000000000000000000000000000000int,
        c2 * 0x1000000000000000000000000000000000000000000000000000000000000000000000000000000000000000000000000int <= 0x1279a745902a2654e32c49e4bffffffff61afdea68480fa554a95a2d972171db4int * k,
        0x1279a745902a2654e32c49e4bffffffff61afdea68480fa554a95a2d972171db4int * k < c2 * 0x1000000000000000000000000000000000000000000000000000000000000000000000000000000000000000000000000int + 3 * 0x1000000000000000000000000000000000000000000000000000000000000000000000000000000000000000000000000int,
    ensures
        ({
            let n = pallas_scalar_order();
            let k2 = (c1 * 0x49e69d1640a899538cb1279300000000int + c2 * 0x40000000000000000000000000000000224698fc094cf91b992d30ed00000000int) % n;
            let k1 = (k - k2 * pallas_lambda()) % n;
            &&& glv_magnitude(k1, n) < ladder_bound()
            &&& glv_magnitude(k2, n) < ladder_bound()
        }),
{
    let n = 0x40000000000000000000000000000000224698fc0994a8dd8c46eb2100000001int;
    let lam = 0x6819a58283e528e511db4d81cf70f5a0fed467d47c033af2aa9d2e050aa0e4fint;
    let two384 = 0x1000000000000000000000000000000000000000000000000000000000000000000000000000000000000000000000000int;
    let g1 = 0x11ebf07cc66e8d000000003ffffffffff666e357bf422ae2d81872bint;
    let g2 = 0x1279a745902a2654e32c49e4bffffffff61afdea68480fa554a95a2d972171db4int;
    // −b₁, −b₂ mod n, and b₂
    let mb1 = 0x49e69d1640a899538cb1279300000000int;
    let mb2 = 0x40000000000000000000000000000000224698fc094cf91b992d30ed00000000int;
    let b2 = 0x47afc1f319ba3400000001int;
    let a1 = 0x49e69d1640f049157fcae1c700000001int;
    let a2 = 0xddb3d742c2892b7e8c46eb2100000002int;
    // (−b₁)·λ = a₁ + t₁·n and b₂·λ = t₂·n − a₂
    let t1 = 0x78345c76c77c54d5eef49b6ffffffffint;
    let t2 = 0x749a55361d89c50aa0e51int;
    // d₁ = g₁·n − 2^384·b₂ and d₂ = g₂·n − 2^384·(−b₁)
    let d1 = 0xd36d3996137c59774d765a1e24889771a1d6697c399f9e4ba7d08392d81872bint;
    let d2 = -0xf610f98d66c7b8074a1a6597ca88de9b662bbae65ad0f338f34cf28de8e24cint;
    assert(pallas_scalar_order() == n);
    assert(pallas_lambda() == lam);
    // c₁ ≈ b₂·k / n and c₂ ≈ (−b₁)·k / n, up to x1 / n and x2 / n.
    let x1 = c1 * n - b2 * k;
    let x2 = c2 * n - mb1 * k;
    assert(two384 * x1 <= d1 * k);
    assert(two384 * x1 > d1 * k - 3 * two384 * n);
    assert(two384 * x2 <= d2 * k);
    assert(two384 * x2 > d2 * k - 3 * two384 * n);
    assert(0x0int <= d1 * k <= 0x34db4e6584df165dd35d9687892225dc84c46a3bbda7286474c612958f84d713a21abb017033efba3f752d079c7f5f828479e8c4691bb9a3e88e58b00000000int);
    assert(-0x3d843e6359b1ee01d2869965f2a237a6fa7d0b8ef11bf6f99e249b185812fb3f667e790fa2abc2d22f1c8c92e3d41dfd4e8d2a356af8948388efcc00000000int <= d2 * k <= 0x0int);
    // k₂ as a signed integer.
    let k2i = c1 * mb1 - c2 * b2;
    assert(n * k2i == x1 * mb1 - x2 * b2);
    assert(two384 * n * k2i == mb1 * (two384 * x1) - b2 * (two384 * x2));
    assert(-ladder_bound() < k2i < ladder_bound());
    // k₁ as a signed integer.
    let k1i = k - c1 * a1 - c2 * a2;
    assert(n * k1i == -a1 * x1 - a2 * x2);
    assert(two384 * n * k1i == -a1 * (two384 * x1) - a2 * (two384 * x2));
    assert(0 <= k1i < ladder_bound());
    // k₂ mod n
    assert(c1 * mb1 + c2 * mb2 == n * c2 + k2i);
    lemma_mod_multiples_vanish(c2, k2i, n);
    let k2 = (c1 * mb1 + c2 * mb2) % n;
    let m: int = if k2i >= 0 {
        lemma_small_mod(k2i as nat, n as nat);
        0
    } else {
        lemma_fundamental_div_mod_converse(k2i, n, -1, k2i + n);
        1
    };
    assert(k2 == k2i + m * n);
    // k₁ mod n
    assert(k - k2 * lam == n * (c2 * t2 - c1 * t1 - m * lam) + k1i);
    lemma_mod_multiples_vanish(c2 * t2 - c1 * t1 - m * lam, k1i, n);
    lemma_small_mod(k1i as nat, n as nat);
    // The magnitudes.
    if m == 1 {
        lemma_fundamental_div_mod_converse(-k2, n, -1, -k2i);
    }
}

/// The lattice bound for Vesta: when `c₁` and `c₂` fall short of
/// `g₁·k / 2^384` and `g₂·k / 2^384` by less than 3, both decomposed scalars
/// stay below `2^130` in magnitude.
///
/// The short lattice basis is `(a₁, b₁), (a₂, b₂)` with `aᵢ + bᵢ·λ ≡ 0 (mod n)`
/// and `a₁·b₂ − a₂·b₁ = n`; `b₁ < 0 < b₂`, and `g₁`, `g₂` round
/// `2^384·b₂ / n` and `2^384·(−b₁) / n` with the errors `d₁`, `d₂`.
proof fn lemma_vesta_lattice(k: int, c1: int, c2: int)
    requires
        0 <= k < vesta_scalar_order(),
        c1 * 0x1000000000000000000000000000000000000000000000000000000000000000000000000000000000000000000000000int <= 0x11ebf07cc66e8cffffffffbffffffffff666e357bf563dd917ae05eint * k,
        0x11ebf07cc66e8cffffffffbffffffffff666e357bf563dd917ae05eint * k < c1 * 0x1000000000000000000000000000000000000000000000000000000000000000000000000000000000000000000000000int + 3 * 0x1000000000000000000000000000000000000000000000000000000000000000000000000000000000000000000000000int,
        c2 * 0x1000000000000000000000000000000000000000000000000000000000000000000000000000000000000000000000000int <= 0x1279a745902a2654e32c49e4c0000000361afdea685cc1578841414c24bf99a83int * k,
        0x1279a745902a2654e32c49e4c0000000361afdea685cc1578841414c24bf99a83int * k < c2 * 0x1000000000000000000000000000000000000000000000000000000000000000000000000000000000000000000000000int + 3 * 0x1000000000000000000000000000000000000000000000000000000000000000000000000000000000000000000000000int,
    ensures
        ({
            let n = vesta_scalar_order();
            let k2 = (c1 * 0x49e69d1640a899538cb1279300000001int + c2 * 0x40000000000000000000000000000000224698fc09054959a61376b900000002int) % n;
            let k1 = (k - k2 * vesta_lambda()) % n;
            &&& glv_magnitude(k1, n) < ladder_bound()
            &&& glv_magnitude(k2, n) < ladder_bound()
        }),
{
    let n = 0x40000000000000000000000000000000224698fc094cf91b992d30ed00000001int;
    let lam = 0x12ccca834acdba712caad5dc57aab1b01d1f8bd237ad31491dad5ebdfdfe4ab9int;
    let two384 = 0x1000000000000000000000000000000000000000000000000000000000000000000000000000000000000000000000000int;
    let g1 = 0x11ebf07cc66e8cffffffffbffffffffff666e357bf563dd917ae05eint;
    let g2 = 0x1279a745902a2654e32c49e4c0000000361afdea685cc1578841414c24bf99a83int;
    // −b₁, −b₂ mod n, and b₂
    let mb1 = 0x49e69d1640a899538cb1279300000001int;
    let mb2 = 0x40000000000000000000000000000000224698fc09054959a61376b900000002int;
    let b2 = 0x47afc1f319ba33ffffffffint;
    let a1 = 0x49e69d1640f049157fcae1c700000000int;
    let a2 = 0xddb3d742c2892b7e8c46eb2100000001int;
    // (−b₁)·λ = a₁ + t₁·n and b₂·λ = t₂·n − a₂
    let t1 = 0x15b5551a73557dc2843fb6ecfdfe4ab9int;
    let t2 = 0x150ed19c61d04f0201b548int;
    // d₁ = g₁·n − 2^384·b₂ and d₂ = g₂·n − 2^384·(−b₁)
    let d1 = 0x16c339c69f52d372df074b6b9ea225322dc3bb58844b8837d34ebae3917ae05eint;
    let d2 = 0xd340b6fd3c6671a4c235e12b7f0f6fb68b2f1cc9a57faa11b27b0094bf99a83int;
    assert(vesta_scalar_order() == n);
    assert(vesta_lambda() == lam);
    // c₁ ≈ b₂·k / n and c₂ ≈ (−b₁)·k / n, up to x1 / n and x2 / n.
    let x1 = c1 * n - b2 * k;
    let x2 = c2 * n - mb1 * k;
    assert(two384 * x1 <= d1 * k);
    assert(two384 * x1 > d1 * k - 3 * two384 * n);
    assert(two384 * x2 <= d2 * k);
    assert(two384 * x2 > d2 * k - 3 * two384 * n);
    assert(0x0int <= d1 * k <= 0x5b0ce71a7d4b4dcb7c1d2dae7a8894c8e7d237ea1d9f60a84e92d5e66e0820b67f63394eb172c09769d2066cd6ec9974b34033d04f9ca905759570600000000int);
    assert(0x0int <= d2 * k <= 0x34d02dbf4f199c69308d784adfc3dbedbf14a1707cab51f99c4cd1427751353ede2e6db61ba4c274f75a1ecda4540056b188bca594af5e397139b4700000000int);
    // k₂ as a signed integer.
    let k2i = c1 * mb1 - c2 * b2;
    assert(n * k2i == x1 * mb1 - x2 * b2);
    assert(two384 * n * k2i == mb1 * (two384 * x1) - b2 * (two384 * x2));
    assert(-ladder_bound() < k2i < ladder_bound());
    // k₁ as a signed integer.
    let k1i = k - c1 * a1 - c2 * a2;
    assert(n * k1i == -a1 * x1 - a2 * x2);
    assert(two384 * n * k1i == -a1 * (two384 * x1) - a2 * (two384 * x2));
    assert(0 <= k1i < ladder_bound());
    // k₂ mod n
    assert(c1 * mb1 + c2 * mb2 == n * c2 + k2i);
    lemma_mod_multiples_vanish(c2, k2i, n);
    let k2 = (c1 * mb1 + c2 * mb2) % n;
    let m: int = if k2i >= 0 {
        lemma_small_mod(k2i as nat, n as nat);
        0
    } else {
        lemma_fundamental_div_mod_converse(k2i, n, -1, k2i + n);
        1
    };
    assert(k2 == k2i + m * n);
    // k₁ mod n
    assert(k - k2 * lam == n * (c2 * t2 - c1 * t1 - m * lam) + k1i);
    lemma_mod_multiples_vanish(c2 * t2 - c1 * t1 - m * lam, k1i, n);
    lemma_small_mod(k1i as nat, n as nat);
    // The magnitudes.
    if m == 1 {
        lemma_fundamental_div_mod_converse(-k2, n, -1, -k2i);
    }
}

/// For every reduced Pallas scalar, both decomposed scalars fit in the 130 bits of the ladder.
pub proof fn lemma_pallas_decomposition_fits(k: [u64; 4])
    requires
        val4(k) < pallas_scalar_order(),
    ensures
        glv_decomposition_fits(pallas_glv_params(), k, pallas_scalar_order(), pallas_lambda()),
{
    let params = pallas_glv_params();
    assert(k[3] <= 0x4000_0000_0000_0000);
    assert(glv_g_shape(PALLAS_G1@));
    assert(glv_g_shape(PALLAS_G2@));
    lemma_glv_high_part(PALLAS_G1@, k@);
    lemma_glv_high_part(PALLAS_G2@, k@);
    lemma_val4(k);
    lemma_val4(PALLAS_G1);
    lemma_val5(PALLAS_G2);
    lemma_wt_values();
    let c1 = glv_c1(params, k);
    let c2 = glv_c2(params, k);
    assert(val4(PALLAS_MINUS_B1) == 0x49e69d1640a899538cb1279300000000int);
    assert(val4(PALLAS_MINUS_B2) == 0x4000000000000000000000000000000000000000000000000000000000000000int + 0x224698fc094cf91b992d30ed00000000int);
    lemma_pallas_lattice(val4(k), c1, c2);
}

/// For every reduced Vesta scalar, both decomposed scalars fit in the 130 bits of the ladder.
pub proof fn lemma_vesta_decomposition_fits(k: [u64; 4])
    requires
        val4(k) < vesta_scalar_order(),
    ensures
        glv_decomposition_fits(vesta_glv_params(), k, vesta_scalar_order(), vesta_lambda()),
{
    let params = vesta_glv_params();
    assert(k[3] <= 0x4000_0000_0000_0000);
    assert(glv_g_shape(VESTA_G1@));
    assert(glv_g_shape(VESTA_G2@));
    lemma_glv_high_part(VESTA_G1@, k@);
    lemma_glv_high_part(VESTA_G2@, k@);
    lemma_val4(k);
    lemma_val4(VESTA_G1);
    lemma_val5(VESTA_G2);
    lemma_wt_values();
    let c1 = glv_c1(params, k);
    let c2 = glv_c2(params, k);
    assert(val4(VESTA_MINUS_B1) == 0x49e69d1640a899538cb1279300000001int);
    assert(val4(VESTA_MINUS_B2) == 0x4000000000000000000000000000000000000000000000000000000000000000int + 0x224698fc09054959a61376b900000002int);
    lemma_vesta_lattice(val4(k), c1, c2);
}

/// Scalar multiplication on Pallas by a reduced scalar of Fq, through GLV.
///
/// The result is `[k]P` for every point `P` in the group of order q on which
/// the endomorphism acts as λ.
pub fn pallas_scalar_mul<P: CurvePoint>(point: &P, scalar: &[u64; 4]) -> (r: P)
    requires
        point.spec_valid(),
        val4(*scalar) < pallas_scalar_order(),
    ensures
        r == glv_result(*point, pallas_glv_params(), *scalar, pallas_scalar_order(), pallas_lambda()),
        smul(*point, pallas_scalar_order() as nat) == P::spec_identity() && point.spec_endo()
            == smul(*point, pallas_lambda() as nat) ==> r == smul(*point, val4(*scalar) as nat),
{
    let params = pallas_glv();
    proof {
        lemma_pallas_decomposition_fits(*scalar);
        assert(val4(PALLAS_SCALAR_MODULUS) == pallas_scalar_order());
        assert(val4(PALLAS_LAMBDA) == pallas_lambda());
        assert(params == pallas_glv_params());
        if smul(*point, pallas_scalar_order() as nat) == P::spec_identity() && point.spec_endo()
            == smul(*point, pallas_lambda() as nat) {
            lemma_glv_result_is_scalar_mul(
                *point,
                params,
                *scalar,
                pallas_scalar_order(),
                pallas_lambda(),
            );
        }
    }
    glv_mul(point, scalar, &params, &PALLAS_SCALAR_MODULUS, &PALLAS_LAMBDA)
}

/// Scalar multiplication on Vesta by a reduced scalar of Fp, through GLV.
///
/// The result is `[k]P` for every point `P` in the group of order p on which
/// the endomorphism acts as λ.
pub fn vesta_scalar_mul<P: CurvePoint>(point: &P, scalar: &[u64; 4]) -> (r: P)
    requires
        point.spec_valid(),
        val4(*scalar) < vesta_scalar_order(),
    ensures
        r == glv_result(*point, vesta_glv_params(), *scalar, vesta_scalar_order(), vesta_lambda()),
        smul(*point, vesta_scalar_order() as nat) == P::spec_identity() && point.spec_endo()
            == smul(*point, vesta_lambda() as nat) ==> r == smul(*point, val4(*scalar) as nat),
{
    let params = vesta_glv();
    proof {
        lemma_vesta_decomposition_fits(*scalar);
        assert(val4(VESTA_SCALAR_MODULUS) == vesta_scalar_order());
        assert(val4(VESTA_LAMBDA) == vesta_lambda());
        assert(params == vesta_glv_params());
        if smul(*point, vesta_scalar_order() as nat) == P::spec_identity() && point.spec_endo()
            == smul(*point, vesta_lambda() as nat) {
            lemma_glv_result_is_scalar_mul(
                *point,
                params,
                *scalar,
                vesta_scalar_order(),
                vesta_lambda(),
            );
        }
    }
    glv_mul(point, scalar, &params, &VESTA_SCALAR_MODULUS, &VESTA_LAMBDA)
}


/// λ is a nontrivial cube root of unity in both scalar fields.
pub proof fn lemma_lambda_is_cube_root_of_unity()
    ensures
        (pallas_lambda() * pallas_lambda() * pallas_lambda()) % pallas_scalar_order() == 1,
        pallas_lambda() != 1,
        (vesta_lambda() * vesta_lambda() * vesta_lambda()) % vesta_scalar_order() == 1,
        vesta_lambda() != 1,
{
    let q = pallas_scalar_order();
    let lq = pallas_lambda();
    let p = vesta_scalar_order();
    let lp = vesta_lambda();
    assert(lq * lq * lq == q * (lq * lq * lq / q) + 1) by (nonlinear_arith)
        requires
            q == 0x40000000000000000000000000000000224698fc0994a8dd8c46eb2100000001int,
            lq == 0x06819a58283e528e511db4d81cf70f5a0fed467d47c033af2aa9d2e050aa0e4fint,
    ;
    lemma_fundamental_div_mod_converse(lq * lq * lq, q, lq * lq * lq / q, 1);
    assert(lp * lp * lp == p * (lp * lp * lp / p) + 1) by (nonlinear_arith)
        requires
            p == 0x40000000000000000000000000000000224698fc094cf91b992d30ed00000001int,
            lp == 0x12ccca834acdba712caad5dc57aab1b01d1f8bd237ad31491dad5ebdfdfe4ab9int,
    ;
    lemma_fundamental_div_mod_converse(lp * lp * lp, p, lp * lp * lp / p, 1);
}

} // verus!
