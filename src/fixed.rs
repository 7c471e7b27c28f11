use vstd::prelude::*;

verus! {

/// The fixed-point value of 1.0: fractions are counted in millionths.
pub const UNIT: u64 = 1000000;

/// `n / d` as a fixed-point fraction, rounded down; zero when `d` is zero.
pub open spec fn ratio(n: int, d: int) -> int {
    if d > 0 {
        (n * UNIT as int) / d
    } else {
        0
    }
}

/// A fraction of at most one whole is at most `UNIT`.
pub proof fn lemma_ratio_at_most_unit(n: int, d: int)
    requires
        0 <= n <= d,
    ensures
        0 <= ratio(n, d) <= UNIT,
{
    if d > 0 {
        assert(0 <= n * (UNIT as int) <= d * (UNIT as int)) by (nonlinear_arith)
            requires
                0 <= n <= d,
        ;
        vstd::arithmetic::div_mod::lemma_div_is_ordered(n * (UNIT as int), d * (UNIT as int), d);
        vstd::arithmetic::div_mod::lemma_div_multiples_vanish(UNIT as int, d);
        vstd::arithmetic::div_mod::lemma_div_pos_is_pos(n * (UNIT as int), d);
    }
}

/// `n / d` as a fixed-point fraction, rounded down; zero when `d` is zero.
pub fn fraction(n: u128, d: u128) -> (r: u128)
    requires
        n <= 0x1_0000_0000_0000_0000_0000_0000,
    ensures
        r == ratio(n as int, d as int),
        r <= n * UNIT,
{
    if d == 0 {
        0
    } else {
        assert(n * (UNIT as int) <= 0x1_0000_0000_0000_0000_0000_0000 * 1000000) by (nonlinear_arith)
            requires
                n <= 0x1_0000_0000_0000_0000_0000_0000,
        ;
        proof {
            vstd::arithmetic::div_mod::lemma_div_is_ordered_by_denominator(n * (UNIT as int), 1, d as int);
        }
        n * (UNIT as u128) / d
    }
}

/// Growing a sum of `i` terms, each at most `b`, by one more term.
pub proof fn lemma_sum_step(i: int, b: int)
    requires
        0 <= i <= usize::MAX,
        0 <= b <= u64::MAX,
    ensures
        (i + 1) * b == i * b + b,
        i * b <= (i + 1) * b,
        (i + 1) * b <= 0x1_0000_0000_0000_0000 * b,
        0x1_0000_0000_0000_0000 * b <= 0xffff_ffff_ffff_ffff_0000_0000_0000_0000,
{
    assert((i + 1) * b == i * b + b) by (nonlinear_arith);
    assert((i + 1) * b <= 0x1_0000_0000_0000_0000 * b) by (nonlinear_arith)
        requires
            i + 1 <= 0x1_0000_0000_0000_0000,
            0 <= b,
    ;
    assert(0x1_0000_0000_0000_0000 * b <= 0xffff_ffff_ffff_ffff_0000_0000_0000_0000) by (nonlinear_arith)
        requires
            0 <= b <= u64::MAX,
    ;
}

} // verus!
