//! Mathematical model of little-endian 64-bit limb sequences and of
//! column-wise (schoolbook) multiplication.

use vstd::arithmetic::div_mod::*;
use vstd::arithmetic::mul::*;
use vstd::arithmetic::power2::*;
use vstd::bits::*;
use vstd::prelude::*;

use crate::arithmetic::radix;

verus! {

/// `2^(64 * c)`: the weight of limb number `c`.
pub open spec fn wt(c: nat) -> int
    decreases c,
{
    if c == 0 {
        1
    } else {
        radix() * wt((c - 1) as nat)
    }
}

/// The integer encoded by a little-endian sequence of 64-bit limbs.
pub open spec fn limbs_val(s: Seq<u64>) -> int
    decreases s.len(),
{
    if s.len() == 0 {
        0
    } else {
        limbs_val(s.drop_last()) + s.last() * wt((s.len() - 1) as nat)
    }
}

/// The integer encoded by four little-endian limbs.
pub open spec fn val4(a: [u64; 4]) -> int {
    a[0] + a[1] * 0x1_0000_0000_0000_0000int + a[2] * 0x1_0000_0000_0000_0000_0000_0000_0000_0000int
        + a[3] * 0x1_0000_0000_0000_0000_0000_0000_0000_0000_0000_0000_0000_0000int
}

/// The partial product `a[c - j] * b[j]` that lands in column `c`, or zero
/// when either index is out of range.
pub open spec fn term(a: Seq<u64>, b: Seq<u64>, c: int, j: int) -> int {
    if 0 <= j < b.len() && 0 <= c - j < a.len() {
        a[c - j] * b[j]
    } else {
        0
    }
}

/// The sum of the partial products of column `c` whose `b`-index is below `j`.
pub open spec fn col_upto(a: Seq<u64>, b: Seq<u64>, c: int, j: int) -> int
    decreases j,
{
    if j <= 0 {
        0
    } else {
        col_upto(a, b, c, j - 1) + term(a, b, c, j - 1)
    }
}

/// The sum of all partial products in column `c`.
pub open spec fn colsum(a: Seq<u64>, b: Seq<u64>, c: int) -> int {
    col_upto(a, b, c, b.len() as int)
}

/// The weighted sum of columns `lo .. hi`.
pub open spec fn colval(a: Seq<u64>, b: Seq<u64>, lo: int, hi: int) -> int
    decreases hi - lo,
{
    if hi <= lo {
        0
    } else {
        colval(a, b, lo, hi - 1) + colsum(a, b, hi - 1) * wt((hi - 1) as nat)
    }
}

pub proof fn lemma_wt_pos(c: nat)
    ensures
        wt(c) > 0,
    decreases c,
{
    if c > 0 {
        lemma_wt_pos((c - 1) as nat);
        lemma_mul_strictly_positive(radix(), wt((c - 1) as nat));
    }
}

pub proof fn lemma_wt_add(x: nat, y: nat)
    ensures
        wt(x + y) == wt(x) * wt(y),
    decreases y,
{
    if y > 0 {
        lemma_wt_add(x, (y - 1) as nat);
        assert(wt(x + y) == radix() * wt((x + y - 1) as nat));
        lemma_mul_is_associative(radix(), wt(x), wt((y - 1) as nat));
        lemma_mul_is_commutative(radix(), wt(x));
        lemma_mul_is_associative(wt(x), radix(), wt((y - 1) as nat));
    }
}

pub proof fn lemma_wt_values()
    ensures
        wt(1) == 0x1_0000_0000_0000_0000int,
        wt(2) == 0x1_0000_0000_0000_0000_0000_0000_0000_0000int,
        wt(3) == 0x1_0000_0000_0000_0000_0000_0000_0000_0000_0000_0000_0000_0000int,
        wt(4) == 0x1_0000_0000_0000_0000_0000_0000_0000_0000_0000_0000_0000_0000_0000_0000_0000_0000int,
        wt(5) == 0x1_0000_0000_0000_0000_0000_0000_0000_0000_0000_0000_0000_0000_0000_0000_0000_0000_0000_0000_0000_0000int,
        wt(6) == 0x1_0000_0000_0000_0000_0000_0000_0000_0000_0000_0000_0000_0000_0000_0000_0000_0000_0000_0000_0000_0000_0000_0000_0000_0000int,
{
    reveal_with_fuel(wt, 7);
}

pub proof fn lemma_limbs_val_bounds(s: Seq<u64>)
    ensures
        0 <= limbs_val(s) < wt(s.len()),
    decreases s.len(),
{
    if s.len() > 0 {
        let k = (s.len() - 1) as nat;
        lemma_limbs_val_bounds(s.drop_last());
        lemma_wt_pos(k);
        assert(s.last() * wt(k) <= (radix() - 1) * wt(k)) by {
            lemma_mul_inequality(s.last() as int, radix() - 1, wt(k));
        }
        assert((radix() - 1) * wt(k) + wt(k) == radix() * wt(k)) by {
            lemma_mul_is_distributive_sub_other_way(wt(k), radix(), 1);
        }
        assert(0 <= s.last() * wt(k)) by {
            lemma_mul_nonnegative(s.last() as int, wt(k));
        }
    }
}

/// Four limbs read as a sequence encode `val4`.
pub proof fn lemma_val4(a: [u64; 4])
    ensures
        limbs_val(a@) == val4(a),
{
    lemma_wt_values();
    let s = a@;
    assert(s.drop_last().drop_last().drop_last().drop_last() =~= Seq::<u64>::empty());
    reveal_with_fuel(limbs_val, 5);
    assert(wt(0) == 1);
}

/// Two limb sequences of the same length encode the same integer only if
/// they are equal.
pub proof fn lemma_limbs_val_injective(s: Seq<u64>, t: Seq<u64>)
    requires
        s.len() == t.len(),
        limbs_val(s) == limbs_val(t),
    ensures
        s == t,
    decreases s.len(),
{
    if s.len() > 0 {
        let k = (s.len() - 1) as nat;
        lemma_limbs_val_bounds(s.drop_last());
        lemma_limbs_val_bounds(t.drop_last());
        lemma_wt_pos(k);
        lemma_fundamental_div_mod_converse(
            limbs_val(s),
            wt(k),
            s.last() as int,
            limbs_val(s.drop_last()),
        );
        lemma_fundamental_div_mod_converse(
            limbs_val(t),
            wt(k),
            t.last() as int,
            limbs_val(t.drop_last()),
        );
        lemma_limbs_val_injective(s.drop_last(), t.drop_last());
        assert forall|i: int| 0 <= i < s.len() implies s[i] == t[i] by {
            if i < s.len() - 1 {
                assert(s[i] == s.drop_last()[i]);
                assert(t[i] == t.drop_last()[i]);
            }
        }
    }
    assert(s =~= t);
}

/// Writing `v` into limb `i` changes the value by `(v - s[i]) * 2^(64 * i)`.
pub proof fn lemma_limbs_val_update(s: Seq<u64>, i: int, v: u64)
    requires
        0 <= i < s.len(),
    ensures
        limbs_val(s.update(i, v)) == limbs_val(s) + (v - s[i]) * wt(i as nat),
    decreases s.len(),
{
    let s2 = s.update(i, v);
    if i == s.len() - 1 {
        assert(s2.drop_last() =~= s.drop_last());
        lemma_mul_is_distributive_sub_other_way(wt(i as nat), v as int, s[i] as int);
    } else {
        assert(s2.drop_last() =~= s.drop_last().update(i, v));
        lemma_limbs_val_update(s.drop_last(), i, v);
    }
}

/// A sequence padded with zero limbs keeps its value.
pub proof fn lemma_limbs_val_take_zeros(s: Seq<u64>, k: int)
    requires
        0 <= k <= s.len(),
        forall|t: int| k <= t < s.len() ==> s[t] == 0,
    ensures
        limbs_val(s) == limbs_val(s.take(k)),
    decreases s.len() - k,
{
    if k < s.len() {
        let s2 = s.drop_last();
        assert(s.last() == 0);
        assert(s2.take(k) =~= s.take(k));
        lemma_limbs_val_take_zeros(s2, k);
    } else {
        assert(s.take(k) =~= s);
    }
}

// ---------------------------------------------------------------------------
// The column decomposition of a product.
// ---------------------------------------------------------------------------
proof fn lemma_col_upto_zero(a: Seq<u64>, b: Seq<u64>, c: int, j: int)
    requires
        forall|jj: int| 0 <= jj < j ==> term(a, b, c, jj) == 0,
    ensures
        col_upto(a, b, c, j) == 0,
    decreases j,
{
    if j > 0 {
        lemma_col_upto_zero(a, b, c, j - 1);
    }
}

/// The terms of column `c` with index in `lo .. hi` are all that count.
pub proof fn lemma_col_upto_range(a: Seq<u64>, b: Seq<u64>, c: int, j: int)
    requires
        j >= b.len() || j > c,
        j >= 0,
    ensures
        col_upto(a, b, c, j) == colsum(a, b, c),
    decreases j,
{
    if j > b.len() && j > 0 {
        lemma_col_upto_range(a, b, c, j - 1);
    } else if j < b.len() {
        lemma_col_upto_range_up(a, b, c, j);
    }
}

proof fn lemma_col_upto_range_up(a: Seq<u64>, b: Seq<u64>, c: int, j: int)
    requires
        j > c,
        0 <= j <= b.len(),
    ensures
        col_upto(a, b, c, j) == colsum(a, b, c),
    decreases b.len() - j,
{
    if j < b.len() {
        lemma_col_upto_range_up(a, b, c, j + 1);
        assert(term(a, b, c, j) == 0);
    }
}

/// The terms of column `c` below `c - a.len() + 1` vanish.
pub proof fn lemma_col_upto_low(a: Seq<u64>, b: Seq<u64>, c: int, j: int)
    requires
        j <= c - a.len() + 1 || j <= 0,
    ensures
        col_upto(a, b, c, j) == 0,
{
    lemma_col_upto_zero(a, b, c, j);
}

/// How the column sums change when a limb is appended to `a`.
proof fn lemma_col_upto_push(a: Seq<u64>, b: Seq<u64>, c: int, j: int)
    requires
        a.len() > 0,
    ensures
        col_upto(a, b, c, j) == col_upto(a.drop_last(), b, c, j) + (if 0 <= c - (a.len() - 1)
            < j && c - (a.len() - 1) < b.len() {
            a.last() * b[c - (a.len() - 1)]
        } else {
            0
        }),
    decreases j,
{
    if j > 0 {
        lemma_col_upto_push(a, b, c, j - 1);
    }
}

/// The weighted sum of the partial products `x * b[c - k]`.
pub open spec fn shifted_val(b: Seq<u64>, x: u64, k: nat, hi: int) -> int
    decreases hi,
{
    if hi <= 0 {
        0
    } else {
        shifted_val(b, x, k, hi - 1) + (if 0 <= (hi - 1) - k < b.len() {
            x * b[(hi - 1) - k]
        } else {
            0
        }) * wt((hi - 1) as nat)
    }
}

proof fn lemma_shifted_val(b: Seq<u64>, x: u64, k: nat, hi: int)
    requires
        hi >= 0,
    ensures
        hi <= k ==> shifted_val(b, x, k, hi) == 0,
        k <= hi <= k + b.len() ==> shifted_val(b, x, k, hi) == x * wt(k) * limbs_val(
            b.take(hi - k),
        ),
    decreases hi,
{
    if hi > 0 {
        lemma_shifted_val(b, x, k, hi - 1);
        if k < hi <= k + b.len() {
            let t = hi - 1 - k;
            let bt = b.take(t + 1);
            assert(bt.drop_last() =~= b.take(t));
            assert(limbs_val(bt) == limbs_val(b.take(t)) + b[t] * wt(t as nat));
            lemma_wt_add(k, t as nat);
            assert((k + t) as nat == (hi - 1) as nat);
            let xw = x * wt(k);
            assert(x * b[t] * wt((hi - 1) as nat) == xw * (b[t] * wt(t as nat))) by {
                lemma_mul_is_associative(x as int, b[t] as int, wt((hi - 1) as nat));
                lemma_mul_is_associative(b[t] as int, wt(t as nat), wt(k));
                lemma_mul_is_commutative(wt(t as nat), wt(k));
                lemma_mul_is_associative(b[t] as int, wt(k), wt(t as nat));
                lemma_mul_is_commutative(b[t] as int, wt(k));
                lemma_mul_is_associative(wt(k), b[t] as int, wt(t as nat));
                lemma_mul_is_associative(x as int, wt(k), b[t] * wt(t as nat));
                lemma_mul_is_associative(x as int, b[t] as int, wt(k) * wt(t as nat));
                lemma_mul_is_associative(x as int, wt(k), b[t] * wt(t as nat));
            }
            lemma_mul_is_distributive_add(xw, limbs_val(b.take(t)), b[t] * wt(t as nat));
        } else if hi == k {
            assert(b.take(0) =~= Seq::<u64>::empty());
        }
    }
}

proof fn lemma_colval_push(a: Seq<u64>, b: Seq<u64>, hi: int)
    requires
        a.len() > 0,
        hi >= 0,
    ensures
        colval(a, b, 0, hi) == colval(a.drop_last(), b, 0, hi) + shifted_val(
            b,
            a.last(),
            (a.len() - 1) as nat,
            hi,
        ),
    decreases hi,
{
    if hi > 0 {
        lemma_colval_push(a, b, hi - 1);
        lemma_col_upto_push(a, b, hi - 1, b.len() as int);
        let e = if 0 <= (hi - 1) - (a.len() - 1) < b.len() {
            a.last() * b[(hi - 1) - (a.len() - 1)]
        } else {
            0
        };
        lemma_mul_is_distributive_add_other_way(
            wt((hi - 1) as nat),
            colsum(a.drop_last(), b, hi - 1),
            e,
        );
    }
}

proof fn lemma_colval_zero_a(b: Seq<u64>, hi: int)
    ensures
        colval(Seq::<u64>::empty(), b, 0, hi) == 0,
    decreases hi,
{
    if hi > 0 {
        lemma_colval_zero_a(b, hi - 1);
        lemma_col_upto_zero(Seq::<u64>::empty(), b, hi - 1, b.len() as int);
    }
}

/// Schoolbook multiplication: the weighted column sums of all partial
/// products add up to the product of the two numbers.
pub proof fn lemma_schoolbook(a: Seq<u64>, b: Seq<u64>)
    ensures
        limbs_val(a) * limbs_val(b) == colval(a, b, 0, (a.len() + b.len()) as int),
    decreases a.len(),
{
    if a.len() == 0 {
        assert(a =~= Seq::<u64>::empty());
        lemma_colval_zero_a(b, b.len() as int);
        assert(limbs_val(a) == 0);
    } else {
        let a2 = a.drop_last();
        let k = (a.len() - 1) as nat;
        let x = a.last();
        let hi = (a.len() + b.len()) as int;
        lemma_schoolbook(a2, b);
        lemma_colval_push(a, b, hi);
        // The top column of the shorter number is empty.
        lemma_col_upto_zero(a2, b, hi - 1, b.len() as int);
        assert(colval(a2, b, 0, hi) == colval(a2, b, 0, hi - 1));
        lemma_shifted_val(b, x, k, hi - 1);
        assert(shifted_val(b, x, k, hi) == shifted_val(b, x, k, hi - 1));
        assert(b.take(b.len() as int) =~= b);
        lemma_mul_is_distributive_add_other_way(limbs_val(b), limbs_val(a2), x * wt(k));
        assert(limbs_val(a) == limbs_val(a2) + x * wt(k));
        assert(colval(a, b, 0, hi) == colval(a2, b, 0, hi) + x * wt(k) * limbs_val(b));
    }
}

/// Splitting the column sum at `mid`.
pub proof fn lemma_colval_split(a: Seq<u64>, b: Seq<u64>, lo: int, mid: int, hi: int)
    requires
        lo <= mid <= hi,
    ensures
        colval(a, b, lo, hi) == colval(a, b, lo, mid) + colval(a, b, mid, hi),
    decreases hi - mid,
{
    if hi > mid {
        lemma_colval_split(a, b, lo, mid, hi - 1);
    }
}

pub proof fn lemma_colsum_nonneg(a: Seq<u64>, b: Seq<u64>, c: int, j: int)
    ensures
        col_upto(a, b, c, j) >= 0,
    decreases j,
{
    if j > 0 {
        lemma_colsum_nonneg(a, b, c, j - 1);
        if 0 <= j - 1 < b.len() && 0 <= c - (j - 1) < a.len() {
            lemma_mul_nonnegative(a[c - (j - 1)] as int, b[j - 1] as int);
        }
    }
}

pub proof fn lemma_colval_nonneg(a: Seq<u64>, b: Seq<u64>, lo: int, hi: int)
    ensures
        colval(a, b, lo, hi) >= 0,
    decreases hi - lo,
{
    if hi > lo {
        lemma_colval_nonneg(a, b, lo, hi - 1);
        lemma_colsum_nonneg(a, b, hi - 1, b.len() as int);
        lemma_wt_pos((hi - 1) as nat);
        lemma_mul_nonnegative(colsum(a, b, hi - 1), wt((hi - 1) as nat));
    }
}


/// `2^256`, one more than the largest value of four limbs.
pub open spec fn two_pow_256() -> int {
    0x1_0000_0000_0000_0000_0000_0000_0000_0000_0000_0000_0000_0000_0000_0000_0000_0000int
}

pub proof fn lemma_val4_bounds(a: [u64; 4])
    ensures
        0 <= val4(a) < two_pow_256(),
        a[3] == 0 <==> val4(a) < 0x1_0000_0000_0000_0000_0000_0000_0000_0000_0000_0000_0000_0000int,
{
}

proof fn lemma_bit_of_split(v: int, lo: int, bj: int, h: int, w: int, r: nat)
    requires
        v == lo + bj * w + h * w * 0x1_0000_0000_0000_0000int,
        0 <= lo < w,
        0 <= bj < 0x1_0000_0000_0000_0000int,
        h >= 0,
        r < 64,
    ensures
        (v / (w * (pow2(r) as int))) % 2 == (bj / (pow2(r) as int)) % 2,
{
    let p = pow2(r) as int;
    let m = pow2((64 - r) as nat) as int;
    lemma_pow2_pos(r);
    lemma_pow2_pos((64 - r) as nat);
    lemma_pow2_adds(r, (64 - r) as nat);
    lemma2_to64_rest();
    assert(p * m == 0x1_0000_0000_0000_0000int);
    // v / w == bj + h * 2^64
    assert(v == (bj + h * 0x1_0000_0000_0000_0000int) * w + lo) by (nonlinear_arith)
        requires
            v == lo + bj * w + h * w * 0x1_0000_0000_0000_0000int,
    ;
    lemma_fundamental_div_mod_converse(v, w, bj + h * 0x1_0000_0000_0000_0000int, lo);
    lemma_div_denominator(v, w, p);
    let q = bj + h * 0x1_0000_0000_0000_0000int;
    // q / p == bj / p + h * m
    lemma_fundamental_div_mod(bj, p);
    lemma_mod_bound(bj, p);
    assert(q == (bj / p + h * m) * p + bj % p) by (nonlinear_arith)
        requires
            q == bj + h * 0x1_0000_0000_0000_0000int,
            p * m == 0x1_0000_0000_0000_0000int,
            bj == p * (bj / p) + bj % p,
    ;
    lemma_fundamental_div_mod_converse(q, p, bj / p + h * m, bj % p);
    // h * m is even
    lemma_pow2_unfold((64 - r) as nat);
    let m2 = pow2((64 - r - 1) as nat) as int;
    assert(bj / p + h * m == (bj / p) + 2 * (h * m2)) by (nonlinear_arith)
        requires
            m == 2 * m2,
    ;
    lemma_mod_multiples_vanish(h * m2, bj / p, 2);
}

/// Bit `i` of a four-limb number, read from its limb.
pub proof fn lemma_val4_bit(b: [u64; 4], i: nat)
    requires
        i < 256,
    ensures
        ((b[(i / 64) as int] >> ((i % 64) as u64)) & 1u64) as int == (val4(b) / (pow2(i) as int)) % 2,
{
    let j = i / 64;
    let r = i % 64;
    let x = b[j as int];
    lemma_u64_shr_is_div(x, r as u64);
    let y = x >> (r as u64);
    assert(y & 1u64 == y % 2) by (bit_vector);
    lemma_pow2_adds(64 * j, r);
    assert(i == 64 * j + r);
    lemma2_to64_rest();
    lemma_pow2_adds(64, 64);
    lemma_pow2_adds(128, 64);
    assert(pow2(0) == 1) by {
        lemma2_to64();
    }
    let w = pow2(64 * j) as int;
    let c1 = 0x1_0000_0000_0000_0000int;
    let c2 = 0x1_0000_0000_0000_0000_0000_0000_0000_0000int;
    let c3 = 0x1_0000_0000_0000_0000_0000_0000_0000_0000_0000_0000_0000_0000int;
    let v = val4(b);
    if j == 0 {
        lemma_bit_of_split(v, 0, b[0] as int, b[1] + b[2] * c1 + b[3] * c2, w as int, r);
    } else if j == 1 {
        lemma_bit_of_split(v, b[0] as int, b[1] as int, b[2] + b[3] * c1, w as int, r);
    } else if j == 2 {
        lemma_bit_of_split(v, b[0] + b[1] * c1, b[2] as int, b[3] as int, w as int, r);
    } else {
        lemma_bit_of_split(v, b[0] + b[1] * c1 + b[2] * c2, b[3] as int, 0, w as int, r);
    }
}

/// The next bit below: `x / 2^i == 2 * (x / 2^(i + 1)) + (x / 2^i) % 2`.
pub proof fn lemma_div_pow2_step(x: int, i: nat)
    requires
        x >= 0,
    ensures
        x / (pow2(i) as int) == 2 * (x / (pow2(i + 1) as int)) + (x / (pow2(i) as int)) % 2,
{
    lemma_pow2_pos(i);
    lemma_pow2_adds(i, 1);
    lemma2_to64();
    lemma_div_denominator(x, pow2(i) as int, 2);
    lemma_fundamental_div_mod(x / (pow2(i) as int), 2);
}

} // verus!
