use pasta_glv::curves::{PALLAS_LAMBDA, PALLAS_SCALAR_MODULUS, VESTA_LAMBDA, VESTA_SCALAR_MODULUS};
use pasta_glv::scalar::{add_mod, from_raw, mul_mod, neg_mod, sub_mod};

const A: [u64; 4] = [0x1111222233334444, 0xaaaabbbbccccdddd, 0xfedcba9876543210, 0x123456789abcdef0];
// q - 5
const B: [u64; 4] = [0x8c46eb20fffffffc, 0x224698fc0994a8dd, 0x0, 0x4000000000000000];

#[test]
fn add_mod_wraps_at_the_modulus() {
    let q = PALLAS_SCALAR_MODULUS;
    assert_eq!(
        add_mod(&A, &B, &q),
        [0x111122223333443f, 0xaaaabbbbccccdddd, 0xfedcba9876543210, 0x123456789abcdef0]
    );
    assert_eq!(add_mod(&[1, 0, 0, 0], &[2, 0, 0, 0], &q), [3, 0, 0, 0]);
}

#[test]
fn sub_mod_both_ways() {
    let q = PALLAS_SCALAR_MODULUS;
    assert_eq!(
        sub_mod(&A, &B, &q),
        [0x1111222233334449, 0xaaaabbbbccccdddd, 0xfedcba9876543210, 0x123456789abcdef0]
    );
    assert_eq!(
        sub_mod(&B, &A, &q),
        [0x7b35c8feccccbbb8, 0x779bdd403cc7cb00, 0x123456789abcdef, 0x2dcba9876543210f]
    );
}

#[test]
fn neg_mod_of_zero_and_nonzero() {
    let q = PALLAS_SCALAR_MODULUS;
    assert_eq!(neg_mod(&[0, 0, 0, 0], &q), [0, 0, 0, 0]);
    assert_eq!(
        neg_mod(&A, &q),
        [0x7b35c8feccccbbbd, 0x779bdd403cc7cb00, 0x123456789abcdef, 0x2dcba9876543210f]
    );
    assert_eq!(add_mod(&A, &neg_mod(&A, &q), &q), [0, 0, 0, 0]);
}

#[test]
fn mul_mod_exact_value() {
    let q = PALLAS_SCALAR_MODULUS;
    assert_eq!(
        mul_mod(&A, &B, &q),
        [0xc3382b96ffffaaae, 0xef37874d1328fc69, 0x5b05b05b05b05ac, 0x24fa4fa4fa4fa54b]
    );
    assert_eq!(mul_mod(&[3, 0, 0, 0], &[7, 0, 0, 0], &q), [21, 0, 0, 0]);
}

#[test]
fn from_raw_reduces() {
    let q = PALLAS_SCALAR_MODULUS;
    assert_eq!(from_raw([u64::MAX; 4], &q), [0x5b2b3e9cfffffffc, 0x992c350be3420567, u64::MAX, 0x3fffffffffffffff]);
    assert_eq!(from_raw(q, &q), [0, 0, 0, 0]);
    assert_eq!(from_raw(A, &q), A);
}

#[test]
fn lambda_is_a_cube_root_of_unity() {
    for (n, l) in [(PALLAS_SCALAR_MODULUS, PALLAS_LAMBDA), (VESTA_SCALAR_MODULUS, VESTA_LAMBDA)] {
        let l2 = mul_mod(&l, &l, &n);
        let l3 = mul_mod(&l2, &l, &n);
        assert_eq!(l3, [1, 0, 0, 0]);
        assert_ne!(l, [1, 0, 0, 0]);
    }
    assert_eq!(
        mul_mod(&PALLAS_LAMBDA, &PALLAS_LAMBDA, &PALLAS_SCALAR_MODULUS),
        [0x619d1840af55f1b1, 0x1259527ec1d4752e, 0xaee24b27e308f0a6, 0x397e65a7d7c1ad71]
    );
}
