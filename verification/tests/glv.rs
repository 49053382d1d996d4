use pasta_glv::curves::{
    pallas_scalar_mul, vesta_scalar_mul, PALLAS_LAMBDA, PALLAS_SCALAR_MODULUS, VESTA_LAMBDA,
    VESTA_SCALAR_MODULUS,
};
use pasta_glv::glv::{glv_mul, pallas_glv, vesta_glv};
use pasta_glv::dlog::DlogPoint;
use pasta_glv::group::CurvePoint;
use pasta_glv::scalar::{mul_mod, neg_mod};

type PallasPoint = DlogPoint<false>;
type VestaPoint = DlogPoint<true>;

fn small(x: u64) -> [u64; 4] {
    [x, 0, 0, 0]
}

const PALLAS_G: PallasPoint = PallasPoint { log: [7, 0, 0, 0] };
const VESTA_G: VestaPoint = VestaPoint { log: [11, 0, 0, 0] };

fn pallas_minus_one() -> [u64; 4] {
    neg_mod(&small(1), &PALLAS_SCALAR_MODULUS)
}

#[test]
fn glv_pallas_small_scalars() {
    let g = PALLAS_G;
    assert_eq!(pallas_scalar_mul(&g, &small(1)), g);
    assert_eq!(pallas_scalar_mul(&g, &small(0)), PallasPoint { log: [0; 4] });
    assert_eq!(pallas_scalar_mul(&g, &pallas_minus_one()), g.neg_point());
    assert_eq!(pallas_scalar_mul(&g, &small(2)), g.add_point(&g));
    assert_eq!(pallas_scalar_mul(&g, &small(3)), g.add_point(&g).add_point(&g));
    let p = pallas_scalar_mul(&g, &pallas_minus_one());
    assert_eq!(p.add_point(&g), PallasPoint { log: [0; 4] });
}

#[test]
fn glv_pallas_product_of_scalars() {
    let g = PALLAS_G;
    let h = g.add_point(&g).add_point(&g).add_point(&g).add_point(&g);
    assert_eq!(pallas_scalar_mul(&h, &small(12345)), pallas_scalar_mul(&g, &small(61725)));
    assert_eq!(pallas_scalar_mul(&g, &small(61725)), PallasPoint { log: small(7 * 61725) });
}

#[test]
fn glv_vesta_small_scalars() {
    let g = VESTA_G;
    assert_eq!(vesta_scalar_mul(&g, &small(1)), g);
    assert_eq!(vesta_scalar_mul(&g, &small(0)), VestaPoint { log: [0; 4] });
    let minus_one = neg_mod(&small(1), &VESTA_SCALAR_MODULUS);
    assert_eq!(vesta_scalar_mul(&g, &minus_one), g.neg_point());
    assert_eq!(vesta_scalar_mul(&g, &small(2)), g.add_point(&g));
    let h = g.add_point(&g).add_point(&g).add_point(&g).add_point(&g);
    assert_eq!(vesta_scalar_mul(&h, &small(12345)), vesta_scalar_mul(&g, &small(61725)));
}

#[test]
fn glv_pallas_lambda_is_the_endomorphism() {
    let g = PALLAS_G;
    assert_eq!(pallas_scalar_mul(&g, &PALLAS_LAMBDA), g.endo());
    let l2 = mul_mod(&PALLAS_LAMBDA, &PALLAS_LAMBDA, &PALLAS_SCALAR_MODULUS);
    assert_eq!(pallas_scalar_mul(&g, &l2), g.endo().endo());
    let l3 = mul_mod(&l2, &PALLAS_LAMBDA, &PALLAS_SCALAR_MODULUS);
    assert_eq!(l3, small(1));
    assert_eq!(pallas_scalar_mul(&g, &l3), g);
}

#[test]
fn glv_identity_point_stays() {
    let id = PallasPoint { log: [0; 4] };
    assert_eq!(pallas_scalar_mul(&id, &small(42)), id);
}

#[test]
fn glv_matches_field_multiplication() {
    // In these groups [k]P is k * P modulo the order.
    let mut k = [0x0123456789abcdefu64, 0xfedcba9876543210, 0x0f1e2d3c4b5a6978, 0x1000000000000000];
    let p = PallasPoint::from_log([0xdeadbeef, 0xcafebabe, 0x12345678, 0x9abcdef]);
    let v = VestaPoint::from_log([0xdeadbeef, 0xcafebabe, 0x12345678, 0x9abcdef]);
    for i in 0..64u64 {
        k[0] = k[0].wrapping_mul(6364136223846793005).wrapping_add(1442695040888963407 + i);
        k[1] ^= k[0].rotate_left(17);
        k[2] = k[2].wrapping_add(k[1]);
        k[3] = (k[3] ^ k[2]) & 0x3fff_ffff_ffff_ffff;
        assert_eq!(
            pallas_scalar_mul(&p, &k).log,
            mul_mod(&p.log, &k, &PALLAS_SCALAR_MODULUS)
        );
        assert_eq!(vesta_scalar_mul(&v, &k).log, mul_mod(&v.log, &k, &VESTA_SCALAR_MODULUS));
    }
}

#[test]
fn glv_mul_with_explicit_parameters() {
    let g = PALLAS_G;
    let r = glv_mul(&g, &small(5), &pallas_glv(), &PALLAS_SCALAR_MODULUS, &PALLAS_LAMBDA);
    assert_eq!(r, PallasPoint { log: small(35) });
    let g = VESTA_G;
    let r = glv_mul(&g, &small(5), &vesta_glv(), &VESTA_SCALAR_MODULUS, &VESTA_LAMBDA);
    assert_eq!(r, VestaPoint { log: small(55) });
}

#[test]
fn glv_largest_scalars() {
    let g = PALLAS_G;
    let top = neg_mod(&small(2), &PALLAS_SCALAR_MODULUS);
    assert_eq!(pallas_scalar_mul(&g, &top), PallasPoint { log: mul_mod(&g.log, &top, &PALLAS_SCALAR_MODULUS) });
    let half = [0x4623759080000000, 0x11234c7e04ca546e, 0, 0x2000000000000000];
    assert_eq!(pallas_scalar_mul(&g, &half), PallasPoint { log: mul_mod(&g.log, &half, &PALLAS_SCALAR_MODULUS) });
}

#[test]
fn test_endo_consistency() {
    // The generator is the point with logarithm 1; [ζ]G must equal φ(G).
    let a = PallasPoint { log: small(1) };
    assert_eq!(pallas_scalar_mul(&a, &PALLAS_LAMBDA), a.endo());
    let a = VestaPoint { log: small(1) };
    assert_eq!(vesta_scalar_mul(&a, &VESTA_LAMBDA), a.endo());
}
