//! Easing curves over the unit interval.

use vstd::prelude::*;
use crate::fixed::SCALE;

verus! {

/// The largest denominator that a curve is computed for exactly.
pub const MAX_STEPS: u64 = 0x8000_0000;

/// The shape of the curve that turns elapsed progress into eased progress.
#[derive(Debug, Clone, Copy, PartialEq, Eq, Structural)]
pub enum EasingFunction {
    Linear,
    EaseIn,
    EaseOut,
    EaseInOut,
}

impl EasingFunction {
    /// The eased value of the fraction `n / d`, exactly, as a numerator over the
    /// denominator `2 · d²`.
    ///
    /// With `t` for `n / d`: the identity; `t²`; `1 − (1 − t)²`; and `2t²` below one
    /// half, `1 − (2 − 2t)² / 2` from one half on.
    pub open spec fn eased_num(self, n: int, d: int) -> int {
        match self {
            EasingFunction::Linear => 2 * (n * d),
            EasingFunction::EaseIn => 2 * (n * n),
            EasingFunction::EaseOut => 2 * (d * d) - 2 * ((d - n) * (d - n)),
            EasingFunction::EaseInOut => if 2 * n < d {
                4 * (n * n)
            } else {
                2 * (d * d) - 4 * ((d - n) * (d - n))
            },
        }
    }

    /// The eased value of `t`, both in millionths: the exact value, rounded down.
    pub open spec fn eased(self, t: int) -> int {
        self.eased_num(t, SCALE as int) / (2 * SCALE)
    }

    /// Applies the curve to the fraction `n / d`. The result is exact: a numerator
    /// over `2 · d²`.
    pub fn apply_exact(&self, n: u64, d: u64) -> (num: u128)
        requires
            n <= d,
            1 <= d <= MAX_STEPS,
        ensures
            num as int == self.eased_num(n as int, d as int),
            num <= 2 * (d * d),
            2 * (d * d) <= 0x8000_0000_0000_0000,
    {
        proof {
            lemma_eased_num_bounds(*self, n as int, d as int);
            lemma_square_bounds(d as int, MAX_STEPS as int);
            lemma_square_bounds(n as int, d as int);
            lemma_square_bounds(d - n, d as int);
            assert(0 <= n * d <= d * d) by (nonlinear_arith)
                requires
                    0 <= n <= d,
            ;
        }
        let n: u128 = n as u128;
        let d: u128 = d as u128;
        match self {
            EasingFunction::Linear => 2 * (n * d),
            EasingFunction::EaseIn => 2 * (n * n),
            EasingFunction::EaseOut => 2 * (d * d) - 2 * ((d - n) * (d - n)),
            EasingFunction::EaseInOut => {
                if 2 * n < d {
                    4 * (n * n)
                } else {
                    2 * (d * d) - 4 * ((d - n) * (d - n))
                }
            },
        }
    }

    /// Applies the curve to a progress value in `[0, SCALE]`, in millionths.
    pub fn apply(&self, t: u64) -> (r: u64)
        requires
            t <= SCALE,
        ensures
            r as int == self.eased(t as int),
            r <= SCALE,
    {
        proof {
            lemma_eased_in_unit(*self, t as int);
        }
        (self.apply_exact(t, SCALE) / (2 * SCALE as u128)) as u64
    }
}

/// The square of a number between 0 and `b` lies between 0 and `b²`.
proof fn lemma_square_bounds(a: int, b: int)
    requires
        0 <= a <= b,
    ensures
        0 <= a * a <= b * b,
{
    assert(0 <= a * a <= b * b) by (nonlinear_arith)
        requires
            0 <= a <= b,
    ;
}

/// Every curve maps the unit interval into itself, and takes its ends to its ends.
pub proof fn lemma_eased_num_bounds(easing: EasingFunction, n: int, d: int)
    requires
        0 <= n <= d,
    ensures
        0 <= easing.eased_num(n, d) <= 2 * (d * d),
        easing.eased_num(0, d) == 0,
        easing.eased_num(d, d) == 2 * (d * d),
{
    lemma_square_bounds(n, d);
    lemma_square_bounds(d - n, d);
    assert(0 <= n * d <= d * d) by (nonlinear_arith)
        requires
            0 <= n <= d,
    ;
    assert(0 * d == 0 && 0 * 0 == 0 && (d - d) * (d - d) == 0) by (nonlinear_arith);
    assert((d - 0) * (d - 0) == d * d) by (nonlinear_arith);
    if 2 * n < d {
        lemma_square_bounds(2 * n, d);
        assert((2 * n) * (2 * n) == 4 * (n * n)) by (nonlinear_arith);
    } else {
        lemma_square_bounds(2 * (d - n), d);
        assert((2 * (d - n)) * (2 * (d - n)) == 4 * ((d - n) * (d - n))) by (nonlinear_arith);
    }
}

/// Every curve is non-decreasing over the unit interval.
pub proof fn lemma_eased_num_monotonic(easing: EasingFunction, a: int, b: int, d: int)
    requires
        0 <= a <= b <= d,
    ensures
        easing.eased_num(a, d) <= easing.eased_num(b, d),
{
    match easing {
        EasingFunction::Linear => {
            assert(a * d <= b * d) by (nonlinear_arith)
                requires
                    a <= b,
                    0 <= d,
            ;
        },
        EasingFunction::EaseIn => {
            lemma_square_bounds(a, b);
        },
        EasingFunction::EaseOut => {
            lemma_square_bounds(d - b, d - a);
        },
        EasingFunction::EaseInOut => {
            if 2 * b < d {
                lemma_square_bounds(a, b);
            } else if 2 * a >= d {
                lemma_square_bounds(d - b, d - a);
            } else {
                // `a` lies below one half and `b` does not: the two sides meet at one half.
                lemma_square_bounds(2 * a, d);
                assert((2 * a) * (2 * a) == 4 * (a * a)) by (nonlinear_arith);
                lemma_square_bounds(2 * (d - b), d);
                assert((2 * (d - b)) * (2 * (d - b)) == 4 * ((d - b) * (d - b))) by (nonlinear_arith);
            }
        },
    }
}

/// Ease-in-out is symmetric about one half: what it has gained at `n / d` it has
/// yet to gain at `1 − n / d`. Its two branches meet at one half, where both give
/// one half. Ease-out is ease-in run backwards.
pub proof fn lemma_curves_mirror(n: int, d: int)
    requires
        0 <= n <= d,
    ensures
        EasingFunction::EaseInOut.eased_num(n, d) + EasingFunction::EaseInOut.eased_num(d - n, d)
            == 2 * (d * d),
        2 * n == d ==> 4 * (n * n) == d * d && EasingFunction::EaseInOut.eased_num(n, d) == d * d,
        EasingFunction::EaseOut.eased_num(n, d) == 2 * (d * d) - EasingFunction::EaseIn.eased_num(
            d - n,
            d,
        ),
{
    assert((d - (d - n)) * (d - (d - n)) == n * n) by (nonlinear_arith);
    if 2 * n == d {
        assert(4 * (n * n) == d * d && (d - n) * (d - n) == n * n) by (nonlinear_arith)
            requires
                2 * n == d,
        ;
    }
}

/// In millionths, every curve maps the unit interval into itself.
pub proof fn lemma_eased_in_unit(easing: EasingFunction, t: int)
    requires
        0 <= t <= SCALE,
    ensures
        0 <= easing.eased(t) <= SCALE,
{
    let s = SCALE as int;
    let num = easing.eased_num(t, s);
    lemma_eased_num_bounds(easing, t, s);
    assert(s * s == 1_000_000_000_000) by (nonlinear_arith)
        requires
            s == 1_000_000,
    ;
    assert(0 <= num <= 2_000_000_000_000);
    assert(easing.eased(t) == num / 2_000_000);
}

/// In millionths, every curve starts at 0 and ends at one whole.
pub proof fn lemma_eased_endpoints(easing: EasingFunction)
    ensures
        easing.eased(0) == 0,
        easing.eased(SCALE as int) == SCALE,
{
    lemma_eased_num_bounds(easing, 0, SCALE as int);
}

/// In millionths, every curve is non-decreasing over the unit interval.
pub proof fn lemma_eased_monotonic(easing: EasingFunction, a: int, b: int)
    requires
        0 <= a <= b <= SCALE,
    ensures
        easing.eased(a) <= easing.eased(b),
{
    lemma_eased_num_monotonic(easing, a, b, SCALE as int);
}

} // verus!
