//! Points of the Pallas or Vesta group written by their discrete logarithm.
//!
//! Both curve groups are cyclic of prime order. Fixing a generator `G`, every
//! point is `[x]G` for exactly one `x` modulo the order, the group law adds the
//! logarithms, and the endomorphism φ multiplies them by λ. A `DlogPoint` holds
//! that `x` as raw limbs; it implements `CurvePoint`, so GLV multiplication can
//! be run and checked on it.

use vstd::arithmetic::div_mod::*;
use vstd::prelude::*;

use crate::arithmetic::radix;
use crate::curves::{
    pallas_lambda, pallas_scalar_order, vesta_lambda, vesta_scalar_order, PALLAS_LAMBDA,
    PALLAS_SCALAR_MODULUS, VESTA_LAMBDA, VESTA_SCALAR_MODULUS,
};
use crate::group::{smul, CurvePoint};
use crate::limbs::{lemma_val4_bounds, two_pow_256, val4};
use crate::scalar::{add_mod, modulus_ok, mul_mod, neg_mod, select4};

verus! {

/// The order of the group: q for Pallas (`VESTA == false`), p for Vesta.
pub open spec fn group_order(vesta: bool) -> int {
    if vesta {
        vesta_scalar_order()
    } else {
        pallas_scalar_order()
    }
}

/// The λ by which φ multiplies the logarithm.
pub open spec fn group_lambda(vesta: bool) -> int {
    if vesta {
        vesta_lambda()
    } else {
        pallas_lambda()
    }
}

/// The four limbs of `x`, for `0 <= x < 2^256`.
pub open spec fn limbs_of(x: int) -> [u64; 4] {
    let r = radix();
    [
        (x % r) as u64,
        ((x / r) % r) as u64,
        (((x / r) / r) % r) as u64,
        ((((x / r) / r) / r) % r) as u64,
    ]
}

pub proof fn lemma_limbs_of(x: int)
    requires
        0 <= x < two_pow_256(),
    ensures
        val4(limbs_of(x)) == x,
{
    let r = radix();
    let q1 = x / r;
    let q2 = q1 / r;
    let q3 = q2 / r;
    lemma_fundamental_div_mod(x, r);
    lemma_fundamental_div_mod(q1, r);
    lemma_fundamental_div_mod(q2, r);
    lemma_fundamental_div_mod(q3, r);
    lemma_mod_bound(x, r);
    lemma_mod_bound(q1, r);
    lemma_mod_bound(q2, r);
    lemma_mod_bound(q3, r);
    lemma_div_pos_is_pos(x, r);
    lemma_div_pos_is_pos(q1, r);
    lemma_div_pos_is_pos(q2, r);
    lemma_div_pos_is_pos(q3, r);
    assert(q3 / r == 0);
}

pub proof fn lemma_limbs_of_val4(a: [u64; 4])
    ensures
        limbs_of(val4(a)) == a,
{
    let r = radix();
    let x = val4(a);
    lemma_fundamental_div_mod_converse(x, r, a[1] + a[2] * r + a[3] * r * r, a[0] as int);
    lemma_fundamental_div_mod_converse(a[1] + a[2] * r + a[3] * r * r, r, a[2] + a[3] * r, a[1] as int);
    lemma_fundamental_div_mod_converse(a[2] + a[3] * r, r, a[3] as int, a[2] as int);
    lemma_fundamental_div_mod_converse(a[3] as int, r, 0, a[3] as int);
    assert(limbs_of(x) =~= a);
}

/// The raw limbs of the group order.
fn order_limbs<const VESTA: bool>() -> (r: [u64; 4])
    ensures
        val4(r) == group_order(VESTA),
        modulus_ok(r),
{
    if VESTA {
        VESTA_SCALAR_MODULUS
    } else {
        PALLAS_SCALAR_MODULUS
    }
}

/// The raw limbs of λ.
fn lambda_limbs<const VESTA: bool>() -> (r: [u64; 4])
    ensures
        val4(r) == group_lambda(VESTA),
{
    if VESTA {
        VESTA_LAMBDA
    } else {
        PALLAS_LAMBDA
    }
}

/// The point `[log]G` of the Pallas group (`VESTA == false`) or of the Vesta
/// group (`VESTA == true`).
#[derive(Clone, Copy, Debug, PartialEq, Eq)]
pub struct DlogPoint<const VESTA: bool> {
    /// The discrete logarithm, as raw limbs.
    pub log: [u64; 4],
}

impl<const VESTA: bool> DlogPoint<VESTA> {
    /// The point `[x mod n]G`.
    pub fn from_log(log: [u64; 4]) -> (r: Self)
        ensures
            val4(r.log) == val4(log) % group_order(VESTA),
            r.spec_valid(),
    {
        let n = order_limbs::<VESTA>();
        DlogPoint { log: crate::scalar::from_raw(log, &n) }
    }
}

impl<const VESTA: bool> CurvePoint for DlogPoint<VESTA> {
    open spec fn spec_valid(self) -> bool {
        val4(self.log) < group_order(VESTA)
    }

    open spec fn spec_add(self, rhs: Self) -> Self {
        DlogPoint { log: limbs_of((val4(self.log) + val4(rhs.log)) % group_order(VESTA)) }
    }

    open spec fn spec_neg(self) -> Self {
        DlogPoint { log: limbs_of((-val4(self.log)) % group_order(VESTA)) }
    }

    open spec fn spec_identity() -> Self {
        DlogPoint { log: [0u64, 0u64, 0u64, 0u64] }
    }

    open spec fn spec_endo(self) -> Self {
        DlogPoint { log: limbs_of((group_lambda(VESTA) * val4(self.log)) % group_order(VESTA)) }
    }

    proof fn lemma_valid(a: Self, b: Self) {
        let n = group_order(VESTA);
        lemma_mod_bound(val4(a.log) + val4(b.log), n);
        lemma_mod_bound(-val4(a.log), n);
        lemma_mod_bound(group_lambda(VESTA) * val4(a.log), n);
        lemma_limbs_of((val4(a.log) + val4(b.log)) % n);
        lemma_limbs_of((-val4(a.log)) % n);
        lemma_limbs_of((group_lambda(VESTA) * val4(a.log)) % n);
    }

    proof fn lemma_add_assoc(a: Self, b: Self, c: Self) {
        let n = group_order(VESTA);
        let (x, y, z) = (val4(a.log), val4(b.log), val4(c.log));
        lemma_mod_bound(y + z, n);
        lemma_mod_bound(x + y, n);
        lemma_limbs_of((y + z) % n);
        lemma_limbs_of((x + y) % n);
        lemma_add_mod_noop_right(x, y + z, n);
        lemma_add_mod_noop(x + y, z, n);
        lemma_mod_twice(x + y, n);
        lemma_add_mod_noop(x + y, z, n);
        lemma_mod_bound(z, n);
        lemma_small_mod(z as nat, n as nat);
        assert(x + (y + z) == (x + y) + z);
    }

    proof fn lemma_add_comm(a: Self, b: Self) {
        assert(val4(a.log) + val4(b.log) == val4(b.log) + val4(a.log));
    }

    proof fn lemma_add_identity(a: Self) {
        let n = group_order(VESTA);
        lemma_val4_bounds(a.log);
        lemma_small_mod(val4(a.log) as nat, n as nat);
        lemma_limbs_of_val4(a.log);
    }

    proof fn lemma_add_neg(a: Self) {
        let n = group_order(VESTA);
        let x = val4(a.log);
        lemma_mod_bound(-x, n);
        lemma_limbs_of((-x) % n);
        lemma_add_mod_noop_right(x, -x, n);
        lemma_val4_bounds(a.log);
        lemma_small_mod(x as nat, n as nat);
        assert((x + (-x)) % n == 0);
        lemma_limbs_of_val4([0u64, 0u64, 0u64, 0u64]);
    }

    fn add_point(&self, rhs: &Self) -> (r: Self) {
        let n = order_limbs::<VESTA>();
        let log = add_mod(&self.log, &rhs.log, &n);
        proof {
            lemma_limbs_of_val4(log);
        }
        DlogPoint { log }
    }

    fn neg_point(&self) -> (r: Self) {
        let n = order_limbs::<VESTA>();
        let log = neg_mod(&self.log, &n);
        proof {
            lemma_limbs_of_val4(log);
        }
        DlogPoint { log }
    }

    fn endo(&self) -> (r: Self) {
        let n = order_limbs::<VESTA>();
        let l = lambda_limbs::<VESTA>();
        let log = mul_mod(&l, &self.log, &n);
        proof {
            lemma_limbs_of_val4(log);
        }
        DlogPoint { log }
    }

    fn select(a: &Self, b: &Self, choice: bool) -> (r: Self) {
        DlogPoint { log: select4(&a.log, &b.log, choice) }
    }
}


/// In the group written by logarithms, `[m]P` is the point whose logarithm is
/// `m·x mod n`, where `x` is the logarithm of `P`.
pub proof fn lemma_dlog_smul<const VESTA: bool>(p: DlogPoint<VESTA>, m: nat)
    requires
        p.spec_valid(),
    ensures
        smul(p, m) == (DlogPoint::<VESTA> {
            log: limbs_of((m * val4(p.log)) % group_order(VESTA)),
        }),
    decreases m,
{
    let n = group_order(VESTA);
    let x = val4(p.log);
    if m == 0 {
        lemma_limbs_of_val4([0u64, 0u64, 0u64, 0u64]);
        assert(val4([0u64, 0u64, 0u64, 0u64]) == 0);
        assert((0 * x) % n == 0);
    } else {
        let m1 = (m - 1) as nat;
        lemma_dlog_smul(p, m1);
        lemma_mod_bound(m1 * x, n);
        lemma_limbs_of((m1 * x) % n);
        lemma_add_mod_noop(m1 * x, x, n);
        lemma_val4_bounds(p.log);
        lemma_small_mod(x as nat, n as nat);
        lemma_mod_twice(m1 * x, n);
        assert(m1 * x + x == m * x) by (nonlinear_arith)
            requires
                m1 + 1 == m,
        ;
    }
}

/// Every point of the group written by logarithms is killed by the group
/// order, and φ acts on it as `[λ]`: the conditions under which GLV
/// multiplication returns `[k]P` hold for every valid `DlogPoint`.
pub proof fn lemma_dlog_order_and_endo<const VESTA: bool>(p: DlogPoint<VESTA>)
    requires
        p.spec_valid(),
    ensures
        smul(p, group_order(VESTA) as nat) == DlogPoint::<VESTA>::spec_identity(),
        p.spec_endo() == smul(p, group_lambda(VESTA) as nat),
{
    let n = group_order(VESTA);
    let x = val4(p.log);
    lemma_dlog_smul(p, n as nat);
    lemma_dlog_smul(p, group_lambda(VESTA) as nat);
    lemma_val4_bounds(p.log);
    lemma_mod_multiples_basic(x, n);
    assert(n > 0);
    assert((n as nat) * x == x * n) by (nonlinear_arith)
        requires
            n > 0,
    ;
    lemma_limbs_of_val4([0u64, 0u64, 0u64, 0u64]);
    assert(val4([0u64, 0u64, 0u64, 0u64]) == 0);
}

} // verus!
