//! The group operations that GLV multiplication needs of a curve point, and
//! the laws of scalar multiplication that follow from the group laws.

use vstd::arithmetic::div_mod::*;
use vstd::arithmetic::mul::*;
use vstd::prelude::*;

verus! {

/// A point of an abelian group (in practice, a curve point) that carries an
/// endomorphism.
///
/// Implementors state their operations over spec functions and prove the
/// group laws for them on the valid points (for a curve: the points on it).
pub trait CurvePoint: Copy + Sized {
    /// The point is an element of the group.
    spec fn spec_valid(self) -> bool;

    /// The sum of two points.
    spec fn spec_add(self, rhs: Self) -> Self;

    /// The negation of a point.
    spec fn spec_neg(self) -> Self;

    /// The neutral element.
    spec fn spec_identity() -> Self;

    /// The endomorphism `φ`.
    spec fn spec_endo(self) -> Self;

    /// The identity is valid, and the operations keep points valid.
    proof fn lemma_valid(a: Self, b: Self)
        ensures
            Self::spec_identity().spec_valid(),
            a.spec_valid() && b.spec_valid() ==> a.spec_add(b).spec_valid(),
            a.spec_valid() ==> a.spec_neg().spec_valid(),
            a.spec_valid() ==> a.spec_endo().spec_valid(),
    ;

    /// Addition is associative.
    proof fn lemma_add_assoc(a: Self, b: Self, c: Self)
        requires
            a.spec_valid(),
            b.spec_valid(),
            c.spec_valid(),
        ensures
            a.spec_add(b.spec_add(c)) == a.spec_add(b).spec_add(c),
    ;

    /// Addition is commutative.
    proof fn lemma_add_comm(a: Self, b: Self)
        requires
            a.spec_valid(),
            b.spec_valid(),
        ensures
            a.spec_add(b) == b.spec_add(a),
    ;

    /// The identity is neutral.
    proof fn lemma_add_identity(a: Self)
        requires
            a.spec_valid(),
        ensures
            a.spec_add(Self::spec_identity()) == a,
    ;

    /// A point plus its negation is the identity.
    proof fn lemma_add_neg(a: Self)
        requires
            a.spec_valid(),
        ensures
            a.spec_add(a.spec_neg()) == Self::spec_identity(),
    ;

    /// `self + rhs`.
    fn add_point(&self, rhs: &Self) -> (r: Self)
        requires
            self.spec_valid(),
            rhs.spec_valid(),
        ensures
            r == self.spec_add(*rhs),
    ;

    /// `-self`.
    fn neg_point(&self) -> (r: Self)
        requires
            self.spec_valid(),
        ensures
            r == self.spec_neg(),
    ;

    /// `φ(self)`.
    fn endo(&self) -> (r: Self)
        requires
            self.spec_valid(),
        ensures
            r == self.spec_endo(),
    ;

    /// `b` when `choice` holds, `a` otherwise, in constant time.
    fn select(a: &Self, b: &Self, choice: bool) -> (r: Self)
        ensures
            r == (if choice {
                *b
            } else {
                *a
            }),
    ;
}

/// `[m]p`: the sum of `m` copies of `p`.
pub open spec fn smul<P: CurvePoint>(p: P, m: nat) -> P
    decreases m,
{
    if m == 0 {
        P::spec_identity()
    } else {
        smul(p, (m - 1) as nat).spec_add(p)
    }
}

/// Multiples of a valid point are valid.
pub proof fn lemma_smul_valid<P: CurvePoint>(p: P, m: nat)
    requires
        p.spec_valid(),
    ensures
        smul(p, m).spec_valid(),
    decreases m,
{
    P::lemma_valid(p, p);
    if m > 0 {
        lemma_smul_valid(p, (m - 1) as nat);
        P::lemma_valid(smul(p, (m - 1) as nat), p);
    }
}

/// The identity is neutral on the left too.
pub proof fn lemma_identity_left<P: CurvePoint>(a: P)
    requires
        a.spec_valid(),
    ensures
        P::spec_identity().spec_add(a) == a,
{
    P::lemma_valid(a, a);
    P::lemma_add_comm(P::spec_identity(), a);
    P::lemma_add_identity(a);
}

/// `(x + y) + (z + w) == (x + z) + (y + w)`.
pub proof fn lemma_swap_middle<P: CurvePoint>(x: P, y: P, z: P, w: P)
    requires
        x.spec_valid(),
        y.spec_valid(),
        z.spec_valid(),
        w.spec_valid(),
    ensures
        x.spec_add(y).spec_add(z.spec_add(w)) == x.spec_add(z).spec_add(y.spec_add(w)),
{
    P::lemma_valid(z, w);
    P::lemma_valid(y, w);
    P::lemma_valid(y, z);
    P::lemma_valid(z, y);
    P::lemma_valid(y.spec_add(z), w);
    P::lemma_add_assoc(x, y, z.spec_add(w));
    P::lemma_add_assoc(y, z, w);
    P::lemma_add_comm(y, z);
    P::lemma_add_assoc(z, y, w);
    P::lemma_add_assoc(x, z, y.spec_add(w));
}

/// Two inverses of one point are equal.
pub proof fn lemma_cancel<P: CurvePoint>(a: P, b: P, c: P)
    requires
        a.spec_valid(),
        b.spec_valid(),
        c.spec_valid(),
        a.spec_add(b) == P::spec_identity(),
        a.spec_add(c) == P::spec_identity(),
    ensures
        b == c,
{
    // b = b + (a + c) = (b + a) + c = (a + b) + c = c
    P::lemma_add_identity(b);
    P::lemma_add_assoc(b, a, c);
    P::lemma_add_comm(b, a);
    lemma_identity_left(c);
}

pub proof fn lemma_smul_one<P: CurvePoint>(p: P)
    requires
        p.spec_valid(),
    ensures
        smul(p, 1) == p,
{
    assert(smul(p, 1) == smul(p, 0).spec_add(p));
    lemma_identity_left(p);
}

/// `[x + y]p == [x]p + [y]p`.
pub proof fn lemma_smul_add<P: CurvePoint>(p: P, x: nat, y: nat)
    requires
        p.spec_valid(),
    ensures
        smul(p, x + y) == smul(p, x).spec_add(smul(p, y)),
    decreases y,
{
    lemma_smul_valid(p, x);
    if y == 0 {
        P::lemma_add_identity(smul(p, x));
    } else {
        lemma_smul_add(p, x, (y - 1) as nat);
        lemma_smul_valid(p, (y - 1) as nat);
        assert(smul(p, x + y) == smul(p, (x + y - 1) as nat).spec_add(p));
        assert((x + y - 1) as nat == x + (y - 1) as nat);
        P::lemma_add_assoc(smul(p, x), smul(p, (y - 1) as nat), p);
    }
}

/// `[y]identity == identity`.
pub proof fn lemma_smul_identity<P: CurvePoint>(y: nat)
    ensures
        smul(P::spec_identity(), y) == P::spec_identity(),
    decreases y,
{
    P::lemma_valid(P::spec_identity(), P::spec_identity());
    if y > 0 {
        lemma_smul_identity::<P>((y - 1) as nat);
        P::lemma_add_identity(P::spec_identity());
    }
}

/// `[y][x]p == [x * y]p`.
pub proof fn lemma_smul_mul<P: CurvePoint>(p: P, x: nat, y: nat)
    requires
        p.spec_valid(),
    ensures
        smul(smul(p, x), y) == smul(p, x * y),
    decreases y,
{
    if y == 0 {
        assert(x * 0 == 0);
    } else {
        lemma_smul_mul(p, x, (y - 1) as nat);
        assert(x * y == x * (y - 1) as nat + x) by (nonlinear_arith)
            requires
                y >= 1,
        ;
        lemma_smul_add(p, x * (y - 1) as nat, x);
    }
}

/// `[y](p + q) == [y]p + [y]q`.
pub proof fn lemma_smul_distrib<P: CurvePoint>(p: P, q: P, y: nat)
    requires
        p.spec_valid(),
        q.spec_valid(),
    ensures
        smul(p.spec_add(q), y) == smul(p, y).spec_add(smul(q, y)),
    decreases y,
{
    P::lemma_valid(P::spec_identity(), P::spec_identity());
    if y == 0 {
        P::lemma_add_identity(P::spec_identity());
    } else {
        let y1 = (y - 1) as nat;
        lemma_smul_distrib(p, q, y1);
        lemma_smul_valid(p, y1);
        lemma_smul_valid(q, y1);
        lemma_swap_middle(smul(p, y1), smul(q, y1), p, q);
    }
}

/// `[y](-p)` is the inverse of `[y]p`.
pub proof fn lemma_smul_neg<P: CurvePoint>(p: P, y: nat)
    requires
        p.spec_valid(),
    ensures
        smul(p, y).spec_add(smul(p.spec_neg(), y)) == P::spec_identity(),
{
    P::lemma_valid(p, p);
    lemma_smul_distrib(p, p.spec_neg(), y);
    P::lemma_add_neg(p);
    lemma_smul_identity::<P>(y);
}

/// In a group where `[n]p` vanishes, `[m]p == [m mod n]p`.
pub proof fn lemma_smul_mod<P: CurvePoint>(p: P, m: nat, n: nat)
    requires
        p.spec_valid(),
        n > 0,
        smul(p, n) == P::spec_identity(),
    ensures
        smul(p, m) == smul(p, m % n),
{
    let q = m / n;
    let r = m % n;
    lemma_fundamental_div_mod(m as int, n as int);
    lemma_mul_is_commutative(n as int, q as int);
    assert(m == n * q + r);
    lemma_smul_add(p, n * q, r);
    lemma_smul_mul(p, n, q);
    lemma_smul_identity::<P>(q);
    lemma_smul_valid(p, r);
    lemma_identity_left(smul(p, r));
}

/// In a group where `[n]p` vanishes, `[n - k](-p) == [k]p` for `0 <= k <= n`.
pub proof fn lemma_smul_neg_complement<P: CurvePoint>(p: P, k: nat, n: nat)
    requires
        p.spec_valid(),
        k <= n,
        smul(p, n) == P::spec_identity(),
    ensures
        smul(p.spec_neg(), (n - k) as nat) == smul(p, k),
{
    let j = (n - k) as nat;
    P::lemma_valid(p, p);
    lemma_smul_valid(p, j);
    lemma_smul_valid(p, k);
    lemma_smul_valid(p.spec_neg(), j);
    lemma_smul_neg(p, j);
    lemma_smul_add(p, j, k);
    assert(j + k == n);
    P::lemma_add_comm(smul(p, j), smul(p, k));
    lemma_cancel(smul(p, j), smul(p.spec_neg(), j), smul(p, k));
}

/// One step of the double-and-add ladder on two points.
pub proof fn lemma_ladder_step<P: CurvePoint>(p1: P, p2: P, t1: nat, t2: nat, b1: nat, b2: nat)
    requires
        p1.spec_valid(),
        p2.spec_valid(),
    ensures
        smul(p1, 2 * t1 + b1).spec_add(smul(p2, 2 * t2 + b2)) == smul(p1, t1).spec_add(
            smul(p2, t2),
        ).spec_add(smul(p1, t1).spec_add(smul(p2, t2))).spec_add(
            smul(p1, b1).spec_add(smul(p2, b2)),
        ),
{
    let a = smul(p1, t1);
    let b = smul(p2, t2);
    let c = smul(p1, b1);
    let d = smul(p2, b2);
    lemma_smul_valid(p1, t1);
    lemma_smul_valid(p2, t2);
    lemma_smul_valid(p1, b1);
    lemma_smul_valid(p2, b2);
    P::lemma_valid(a, a);
    P::lemma_valid(b, b);
    lemma_smul_add(p1, t1, t1);
    lemma_smul_add(p1, t1 + t1, b1);
    lemma_smul_add(p2, t2, t2);
    lemma_smul_add(p2, t2 + t2, b2);
    assert(2 * t1 + b1 == t1 + t1 + b1);
    assert(2 * t2 + b2 == t2 + t2 + b2);
    lemma_swap_middle(a, b, a, b);
    lemma_swap_middle(a.spec_add(a), b.spec_add(b), c, d);
}

} // verus!
