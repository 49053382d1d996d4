# pasta_glv

GLV (Gallant–Lambert–Vanstone) scalar multiplication for the Pallas / Vesta
curve cycle, written in Verus.

A scalar `k` is split into two half-size scalars with `k ≡ k₁ + k₂·λ (mod n)`,
and `[k]P` is computed as `[k₁]P + [k₂]φ(P)` with a constant-time Shamir
ladder over 130 bits. The library proves:

- `mul_high` carries every column total in full, so it is exact when no column
  is dropped (`skip <= 1`), never overestimates `(a·b) >> 64·skip`, falls short
  of it by at most one when the dropped columns stay below `2^(64·skip)` (always
  for `skip <= 2`) and by at most 4 in any case; its result does not depend on
  what the output buffer held, nor, for two four-limb factors, on their order;
- the modular arithmetic on raw four-limb scalars is exact;
- the decomposition is exact modulo `n` for any constants, and for the Pallas and
  Vesta constants both halves always fit in the ladder's 130 bits;
- for a point of order `n` on which φ acts as `[λ]`, `glv_mul` returns `[k]P`.

Points are abstracted by the `CurvePoint` trait (`src/group.rs`); `DlogPoint`
(`src/dlog.rs`) implements it by the discrete logarithm of the point, which is
what the tests run GLV multiplication on. For every valid `DlogPoint` the group
order kills the point and φ acts as `[λ]` (`lemma_dlog_order_and_endo`), so
`pallas_scalar_mul` and `vesta_scalar_mul` provably return `[k]P` on it.
