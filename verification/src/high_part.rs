//! What `mul_high` computes: the columns of a product from one below the
//! first kept limb on, divided by the weight of that limb, and how close this
//! comes to the exact high part of the product.

use vstd::arithmetic::div_mod::*;
use vstd::arithmetic::mul::*;
use vstd::prelude::*;

use crate::arithmetic::radix;
use crate::limbs::{
    col_upto, colsum, colval, lemma_col_upto_range, lemma_colval_nonneg, lemma_colval_split,
    lemma_limbs_val_bounds, lemma_limbs_val_injective, lemma_schoolbook, lemma_wt_add, lemma_wt_pos,
    lemma_wt_values, limbs_val, term, wt,
};

verus! {

// ---------------------------------------------------------------------------
// What `mul_high` computes.
// ---------------------------------------------------------------------------
/// The first column that `mul_high` evaluates: one below the first column it keeps.
pub open spec fn start_col(skip: int) -> int {
    if skip > 0 {
        skip - 1
    } else {
        0
    }
}

/// The value that `mul_high(a, b, skip, out)` leaves in `out`: the columns of
/// `a·b` from `start_col(skip)` on, carried in full, divided by `2^(64·skip)`.
pub open spec fn high_part(a: Seq<u64>, b: Seq<u64>, skip: int) -> int {
    colval(a, b, start_col(skip), (a.len() + b.len()) as int) / wt(skip as nat)
}

/// One column of `mul_high`: its total, split into a digit and a two-limb
/// carry, moves the running column sum one column on.
pub proof fn lemma_column_step(
    a: Seq<u64>,
    b: Seq<u64>,
    s: int,
    col: int,
    rest: int,
    cin: int,
    lo: int,
    hi: int,
    top: int,
)
    requires
        0 <= s <= col,
        colval(a, b, s, col) == rest + cin * wt(col as nat),
        lo + hi * radix() + top * (radix() * radix()) == cin + colsum(a, b, col),
    ensures
        colval(a, b, s, col + 1) == rest + lo * wt(col as nat) + (hi + top * radix()) * wt(
            (col + 1) as nat,
        ),
{
    let w = wt(col as nat);
    let r = radix();
    assert(wt((col + 1) as nat) == r * w);
    assert(colval(a, b, s, col + 1) == colval(a, b, s, col) + colsum(a, b, col) * w);
    assert(cin * w + colsum(a, b, col) * w == lo * w + (hi + top * r) * (r * w))
        by (nonlinear_arith)
        requires
            lo + hi * r + top * (r * r) == cin + colsum(a, b, col),
    ;
}

/// A column total, with a carry in below `4·2^64`, stays below `4·2^128`.
pub proof fn lemma_column_total_bound(a: Seq<u64>, b: Seq<u64>, col: int, cin: int)
    requires
        b.len() == 4,
        0 <= cin < 4 * radix(),
    ensures
        cin + colsum(a, b, col) < 4 * (radix() * radix()),
{
    lemma_col_upto_bound(a, b, col, 4);
    let r = radix();
    assert(cin + 4 * (r - 1) * (r - 1) < 4 * (r * r)) by (nonlinear_arith)
        requires
            0 <= cin < 4 * r,
            r > 1,
    ;
}

/// Bounds on a quotient from bounds on the dividend.
proof fn lemma_div_between(x: int, y: int, d: int, k: int)
    requires
        d > 0,
        k >= 0,
        y - k * d <= x <= y,
    ensures
        y / d - k <= x / d <= y / d,
{
    lemma_div_is_ordered(x, y, d);
    lemma_div_is_ordered(y - k * d, x, d);
    lemma_hoist_over_denominator(y - k * d, k, d as nat);
}

/// The columns of `a·b` from `s` on sum to less than `2^(64·(a.len() + b.len()))`.
pub proof fn lemma_kept_sum_below(a: Seq<u64>, b: Seq<u64>, s: int)
    requires
        s >= 0,
    ensures
        0 <= colval(a, b, s, (a.len() + b.len()) as int) < wt((a.len() + b.len()) as nat),
{
    let hi = (a.len() + b.len()) as int;
    lemma_schoolbook(a, b);
    lemma_colval_nonneg(a, b, 0, s);
    lemma_colval_nonneg(a, b, s, hi);
    if s <= hi {
        lemma_colval_split(a, b, 0, s, hi);
    }
    lemma_limbs_val_bounds(a);
    lemma_limbs_val_bounds(b);
    lemma_wt_add(a.len(), b.len());
    assert(limbs_val(a) * limbs_val(b) < wt(a.len()) * wt(b.len())) by (nonlinear_arith)
        requires
            0 <= limbs_val(a) < wt(a.len()),
            0 <= limbs_val(b) < wt(b.len()),
    ;
}

/// The columns that `mul_high` keeps and the ones it drops add up to the
/// product: `a·b − dropped ≤ kept ≤ a·b`, and `kept ≥ 0`.
proof fn lemma_kept_columns(a: Seq<u64>, b: Seq<u64>, skip: int)
    requires
        skip >= 0,
    ensures
        ({
            let s = start_col(skip);
            let kept = colval(a, b, s, (a.len() + b.len()) as int);
            let ab = limbs_val(a) * limbs_val(b);
            &&& 0 <= kept <= ab
            &&& ab - colval(a, b, 0, s) <= kept
            &&& 0 <= colval(a, b, 0, s)
        }),
{
    let s = start_col(skip);
    let hi = (a.len() + b.len()) as int;
    lemma_schoolbook(a, b);
    lemma_colval_nonneg(a, b, 0, s);
    lemma_colval_nonneg(a, b, s, hi);
    lemma_colval_nonneg(a, b, 0, hi);
    if s <= hi {
        lemma_colval_split(a, b, 0, s, hi);
    } else {
        lemma_colval_split(a, b, 0, hi, s);
        lemma_colval_nonneg(a, b, hi, s);
    }
}

proof fn lemma_col_upto_bound(a: Seq<u64>, b: Seq<u64>, c: int, j: int)
    requires
        0 <= j <= b.len(),
    ensures
        col_upto(a, b, c, j) <= j * (radix() - 1) * (radix() - 1),
    decreases j,
{
    if j > 0 {
        lemma_col_upto_bound(a, b, c, j - 1);
        if 0 <= c - (j - 1) < a.len() {
            let x = a[c - (j - 1)] as int;
            let y = b[j - 1] as int;
            assert(x * y <= (radix() - 1) * (radix() - 1)) by (nonlinear_arith)
                requires
                    0 <= x <= radix() - 1,
                    0 <= y <= radix() - 1,
            ;
        }
        assert((j - 1) * (radix() - 1) * (radix() - 1) + (radix() - 1) * (radix() - 1) == j * (
        radix() - 1) * (radix() - 1)) by (nonlinear_arith);
    }
}

/// The columns below `s` of a product by a four-limb number stay below `4 * 2^(64 * (s + 1))`.
proof fn lemma_low_columns_bound(a: Seq<u64>, b: Seq<u64>, s: int)
    requires
        b.len() == 4,
        s >= 0,
    ensures
        colval(a, b, 0, s) <= 4 * (radix() - 1) * (wt(s as nat) - 1),
    decreases s,
{
    if s > 0 {
        lemma_low_columns_bound(a, b, s - 1);
        lemma_col_upto_bound(a, b, s - 1, 4);
        let w = wt((s - 1) as nat);
        let cs = colsum(a, b, s - 1);
        let r = radix();
        lemma_wt_pos((s - 1) as nat);
        assert(wt(s as nat) == r * w);
        assert(cs * w <= 4 * (r - 1) * (r - 1) * w) by (nonlinear_arith)
            requires
                cs <= 4 * (r - 1) * (r - 1),
                w > 0,
        ;
        assert(4 * (r - 1) * (w - 1) + 4 * (r - 1) * (r - 1) * w == 4 * (r - 1) * (r * w - 1))
            by (nonlinear_arith);
    }
}


// ---------------------------------------------------------------------------
// How close `mul_high` comes to the exact high part.
// ---------------------------------------------------------------------------
/// When no column is dropped (`skip <= 1`), the result is exact:
/// `a·b >> 64·skip`.
pub proof fn lemma_high_part_exact(a: Seq<u64>, b: Seq<u64>, skip: int)
    requires
        0 <= skip <= 1,
    ensures
        high_part(a, b, skip) == limbs_val(a) * limbs_val(b) / wt(skip as nat),
{
    lemma_schoolbook(a, b);
}

/// The result never exceeds `a·b >> 64·skip`, and for a four-limb `b` it falls
/// short of it by at most 4.
pub proof fn lemma_high_part_bounds(a: Seq<u64>, b: Seq<u64>, skip: int)
    requires
        skip >= 0,
    ensures
        high_part(a, b, skip) <= limbs_val(a) * limbs_val(b) / wt(skip as nat),
        b.len() == 4 ==> limbs_val(a) * limbs_val(b) / wt(skip as nat) - 4 <= high_part(a, b, skip),
{
    let s = start_col(skip);
    let d = wt(skip as nat);
    let ab = limbs_val(a) * limbs_val(b);
    let kept = colval(a, b, s, (a.len() + b.len()) as int);
    lemma_wt_pos(skip as nat);
    lemma_kept_columns(a, b, skip);
    lemma_div_is_ordered(kept, ab, d);
    if b.len() == 4 {
        lemma_low_columns_bound(a, b, s);
        if skip > 0 {
            lemma_wt_pos(s as nat);
            assert(d == radix() * wt(s as nat));
            assert(4 * (radix() - 1) * (wt(s as nat) - 1) < 4 * d) by (nonlinear_arith)
                requires
                    d == radix() * wt(s as nat),
                    wt(s as nat) > 0,
                    radix() > 1,
            ;
        } else {
            assert(colval(a, b, 0, 0) == 0);
        }
        lemma_div_between(kept, ab, d, 4);
    }
}

/// When the dropped columns stay below `2^(64·skip)`, which always holds for
/// `skip <= 2`, the result is `a·b >> 64·skip` or one less.
pub proof fn lemma_high_part_within_one(a: Seq<u64>, b: Seq<u64>, skip: int)
    requires
        skip >= 0,
        skip <= 2 || colval(a, b, 0, start_col(skip)) < wt(skip as nat),
    ensures
        limbs_val(a) * limbs_val(b) / wt(skip as nat) - 1 <= high_part(a, b, skip),
        high_part(a, b, skip) <= limbs_val(a) * limbs_val(b) / wt(skip as nat),
{
    let s = start_col(skip);
    let d = wt(skip as nat);
    let ab = limbs_val(a) * limbs_val(b);
    let kept = colval(a, b, s, (a.len() + b.len()) as int);
    lemma_wt_pos(skip as nat);
    lemma_wt_values();
    lemma_kept_columns(a, b, skip);
    if skip <= 2 {
        if s == 1 {
            lemma_col_upto_range(a, b, 0, 1);
            assert(col_upto(a, b, 0, 0) == 0);
            assert(col_upto(a, b, 0, 1) == term(a, b, 0, 0));
            assert(colval(a, b, 0, 1) == colval(a, b, 0, 0) + colsum(a, b, 0) * wt(0));
            if 0 < a.len() && 0 < b.len() {
                let x = a[0] as int;
                let y = b[0] as int;
                assert(x * y < 0x1_0000_0000_0000_0000_0000_0000_0000_0000int) by (nonlinear_arith)
                    requires
                        0 <= x < 0x1_0000_0000_0000_0000int,
                        0 <= y < 0x1_0000_0000_0000_0000int,
                ;
            }
            assert(wt(0) == 1);
            lemma_mul_basics(colsum(a, b, 0));
            assert(colval(a, b, 0, 0) == 0);
            assert(colval(a, b, 0, 1) == term(a, b, 0, 0));
            assert(colval(a, b, 0, s) < d);
        } else {
            assert(colval(a, b, 0, 0) == 0);
        }
    }
    assert(ab - 1 * d <= kept);
    lemma_div_between(kept, ab, d, 1);
}

/// Swapping two four-limb factors leaves every column sum unchanged.
pub proof fn lemma_colsum_commutes(a: Seq<u64>, b: Seq<u64>, c: int)
    requires
        a.len() == 4,
        b.len() == 4,
    ensures
        colsum(a, b, c) == colsum(b, a, c),
{
    reveal_with_fuel(col_upto, 5);
    assert(colsum(a, b, c) == term(a, b, c, 0) + term(a, b, c, 1) + term(a, b, c, 2) + term(a, b, c, 3));
    assert(colsum(b, a, c) == term(b, a, c, 0) + term(b, a, c, 1) + term(b, a, c, 2) + term(b, a, c, 3));
    assert forall|j: int| 0 <= j < 4 && 0 <= c - j < 4 implies #[trigger] term(a, b, c, j) == term(b, a, c, c - j) by {
        lemma_mul_is_commutative(a[c - j] as int, b[j] as int);
    }
    assert forall|j: int| !(0 <= j < 4 && 0 <= c - j < 4) implies #[trigger] term(a, b, c, j) == 0 by {}
    assert forall|j: int| !(0 <= j < 4 && 0 <= c - j < 4) implies #[trigger] term(b, a, c, j) == 0 by {}
    if c == 0 {
        assert(term(a, b, c, 0) == term(b, a, c, 0));
    } else if c == 1 {
        assert(term(a, b, c, 0) == term(b, a, c, 1));
        assert(term(a, b, c, 1) == term(b, a, c, 0));
    } else if c == 2 {
        assert(term(a, b, c, 0) == term(b, a, c, 2));
        assert(term(a, b, c, 1) == term(b, a, c, 1));
        assert(term(a, b, c, 2) == term(b, a, c, 0));
    } else if c == 3 {
        assert(term(a, b, c, 0) == term(b, a, c, 3));
        assert(term(a, b, c, 1) == term(b, a, c, 2));
        assert(term(a, b, c, 2) == term(b, a, c, 1));
        assert(term(a, b, c, 3) == term(b, a, c, 0));
    } else if c == 4 {
        assert(term(a, b, c, 1) == term(b, a, c, 3));
        assert(term(a, b, c, 2) == term(b, a, c, 2));
        assert(term(a, b, c, 3) == term(b, a, c, 1));
    } else if c == 5 {
        assert(term(a, b, c, 2) == term(b, a, c, 3));
        assert(term(a, b, c, 3) == term(b, a, c, 2));
    } else if c == 6 {
        assert(term(a, b, c, 3) == term(b, a, c, 3));
    }
}

proof fn lemma_colval_commutes(a: Seq<u64>, b: Seq<u64>, lo: int, hi: int)
    requires
        a.len() == 4,
        b.len() == 4,
    ensures
        colval(a, b, lo, hi) == colval(b, a, lo, hi),
    decreases hi - lo,
{
    if hi > lo {
        lemma_colval_commutes(a, b, lo, hi - 1);
        lemma_colsum_commutes(a, b, hi - 1);
    }
}

/// For two four-limb factors the order does not matter.
pub proof fn lemma_high_part_commutes(a: Seq<u64>, b: Seq<u64>, skip: int)
    requires
        a.len() == 4,
        b.len() == 4,
    ensures
        high_part(a, b, skip) == high_part(b, a, skip),
{
    lemma_colval_commutes(a, b, start_col(skip), 8);
}

/// Two results of `mul_high` of the same length for the same inputs agree limb
/// for limb, whatever the output buffers held before.
pub proof fn lemma_mul_high_deterministic(
    a: Seq<u64>,
    b: Seq<u64>,
    skip: int,
    out1: Seq<u64>,
    out2: Seq<u64>,
)
    requires
        out1.len() == out2.len(),
        limbs_val(out1) == high_part(a, b, skip),
        limbs_val(out2) == high_part(a, b, skip),
    ensures
        out1 == out2,
{
    lemma_limbs_val_injective(out1, out2);
}

/// `mul_high(a, b, ..)` and `mul_high(b, a, ..)` on four-limb factors fill
/// outputs of the same length identically.
pub proof fn lemma_mul_high_commutes(
    a: Seq<u64>,
    b: Seq<u64>,
    skip: int,
    out1: Seq<u64>,
    out2: Seq<u64>,
)
    requires
        a.len() == 4,
        b.len() == 4,
        out1.len() == out2.len(),
        limbs_val(out1) == high_part(a, b, skip),
        limbs_val(out2) == high_part(b, a, skip),
    ensures
        out1 == out2,
{
    lemma_high_part_commutes(a, b, skip);
    lemma_limbs_val_injective(out1, out2);
}

// ---------------------------------------------------------------------------
// The high parts of the GLV products.
// ---------------------------------------------------------------------------
proof fn lemma_product_bound(x: int, y: int, bx: int, by: int)
    requires
        0 <= x <= bx,
        0 <= y <= by,
    ensures
        0 <= x * y <= bx * by,
{
    assert(0 <= x * y <= bx * by) by (nonlinear_arith)
        requires
            0 <= x <= bx,
            0 <= y <= by,
    ;
}

/// The shape of the GLV constants `g` that `mul_high` is used with.
pub open spec fn glv_g_shape(g: Seq<u64>) -> bool {
    ||| (g.len() == 4 && g[2] <= 0xd000_0000_0000_0000 && g[3] <= 0x400_0000)
    ||| (g.len() == 5 && g[3] <= 0x2800_0000_0000_0000 && g[4] <= 1)
}

/// For a reduced scalar `k` (top limb at most `2^62`) and GLV constants `g`,
/// the high part of `g·k` by `2^384` falls short of `g·k / 2^384` by less than 3.
pub proof fn lemma_glv_high_part(g: Seq<u64>, k: Seq<u64>)
    requires
        glv_g_shape(g),
        k.len() == 4,
        k[3] <= 0x4000_0000_0000_0000,
    ensures
        high_part(g, k, 6) * wt(6) <= limbs_val(g) * limbs_val(k),
        limbs_val(g) * limbs_val(k) < (high_part(g, k, 6) + 3) * wt(6),
{
    let m = 0xffff_ffff_ffff_ffffint;
    let r = radix();
    let rr = 0x1_0000_0000_0000_0000_0000_0000_0000_0000int;
    assert(r * r == rr);
    let hi = g.len() + 4 as int;
    let t62 = 0x4000_0000_0000_0000int;
    lemma_wt_values();
    reveal_with_fuel(col_upto, 5);
    // Column 4, the highest of the dropped ones.
    if g.len() == 4 {
        lemma_product_bound(g[1] as int, k[3] as int, m, t62);
        lemma_product_bound(g[2] as int, k[2] as int, 0xd000_0000_0000_0000, m);
        lemma_product_bound(g[3] as int, k[1] as int, 0x400_0000, m);
    } else {
        lemma_product_bound(g[1] as int, k[3] as int, m, t62);
        lemma_product_bound(g[2] as int, k[2] as int, m, m);
        lemma_product_bound(g[3] as int, k[1] as int, 0x2800_0000_0000_0000, m);
        lemma_product_bound(g[4] as int, k[0] as int, 1, m);
    }
    let c4 = colsum(g, k, 4);
    assert(term(g, k, 4, 3) == g[1] * k[3]);
    assert(term(g, k, 4, 2) == g[2] * k[2]);
    assert(term(g, k, 4, 1) == g[3] * k[1]);
    assert(c4 == term(g, k, 4, 0) + term(g, k, 4, 1) + term(g, k, 4, 2) + term(g, k, 4, 3));
    if g.len() == 4 {
        assert(term(g, k, 4, 0) == 0);
    } else {
        assert(term(g, k, 4, 0) == g[4] * k[0]);
    }
    assert(0 <= c4 && 10 * c4 <= 19 * rr);
    // The dropped columns stay below 2 * 2^384.
    lemma_low_columns_bound(g, k, 4);
    let w4 = wt(4);
    let low4 = colval(g, k, 0, 4);
    assert(colval(g, k, 0, 5) == low4 + c4 * w4);
    assert(low4 + c4 * w4 < 2 * rr * w4) by (nonlinear_arith)
        requires
            low4 <= 4 * (r - 1) * (w4 - 1),
            10 * c4 <= 19 * rr,
            0 <= c4,
            r == 0x1_0000_0000_0000_0000int,
            rr == r * r,
            w4 > 0,
    ;
    assert(wt(6) == rr * w4);
    assert(colval(g, k, 0, 5) < 2 * wt(6));
    // The product is the dropped columns plus the kept ones.
    lemma_schoolbook(g, k);
    lemma_colval_split(g, k, 0, 5, hi);
    lemma_colval_nonneg(g, k, 0, 5);
    let x = colval(g, k, 5, hi);
    let d = wt(6);
    lemma_fundamental_div_mod(x, d);
    lemma_mod_bound(x, d);
    assert(high_part(g, k, 6) == x / d);
    lemma_mul_is_commutative(x / d, d);
}

} // verus!
