//! Fixed-point arithmetic in millionths.

use vstd::prelude::*;

verus! {

/// One whole, counted in millionths.
pub const SCALE: u64 = 1_000_000;

/// `x` limited to the unit interval `[0, SCALE]`.
pub open spec fn clamp_unit(x: int) -> int {
    if x < 0 {
        0
    } else if x > SCALE as int {
        SCALE as int
    } else {
        x
    }
}

/// Limits a signed fraction to the unit interval.
pub fn clamp_to_unit(x: i64) -> (r: u64)
    ensures
        r as int == clamp_unit(x as int),
        r <= SCALE,
{
    if x < 0 {
        0
    } else if x as u64 > SCALE {
        SCALE
    } else {
        x as u64
    }
}

/// `r` is the integer part of the square root of `n`.
pub open spec fn is_floor_sqrt(r: int, n: int) -> bool {
    0 <= r && r * r <= n < (r + 1) * (r + 1)
}

/// A number has at most one integer square root.
pub proof fn lemma_floor_sqrt_unique(r1: int, r2: int, n: int)
    requires
        is_floor_sqrt(r1, n),
        is_floor_sqrt(r2, n),
    ensures
        r1 == r2,
{
    if r1 < r2 {
        assert((r1 + 1) * (r1 + 1) <= r2 * r2) by (nonlinear_arith)
            requires
                0 <= r1,
                r1 + 1 <= r2,
        ;
    } else if r2 < r1 {
        assert((r2 + 1) * (r2 + 1) <= r1 * r1) by (nonlinear_arith)
            requires
                0 <= r2,
                r2 + 1 <= r1,
        ;
    }
}

/// The integer part of the square root of `n`, for `n` not below 0.
pub open spec fn floor_sqrt(n: int) -> int {
    choose|r: int| #[trigger] is_floor_sqrt(r, n)
}

/// Integer square root, by bisection.
pub fn isqrt(n: u128) -> (r: u64)
    ensures
        is_floor_sqrt(r as int, n as int),
        r as int == floor_sqrt(n as int),
{
    let mut lo: u128 = 0;
    let mut hi: u128 = 0x1_0000_0000_0000_0000;
    assert(0x1_0000_0000_0000_0000int * 0x1_0000_0000_0000_0000int > u128::MAX);
    while hi - lo > 1
        invariant
            lo < hi <= 0x1_0000_0000_0000_0000,
            lo * lo <= n < hi * hi,
        decreases hi - lo,
    {
        let mid: u128 = lo + (hi - lo) / 2;
        assert(mid * mid <= 0xFFFF_FFFF_FFFF_FFFF * 0xFFFF_FFFF_FFFF_FFFF) by (nonlinear_arith)
            requires
                0 <= mid <= 0xFFFF_FFFF_FFFF_FFFF,
        ;
        assert(0xFFFF_FFFF_FFFF_FFFFint * 0xFFFF_FFFF_FFFF_FFFFint <= u128::MAX);
        if mid * mid <= n {
            lo = mid;
        } else {
            hi = mid;
        }
    }
    proof {
        assert(is_floor_sqrt(lo as int, n as int));
        lemma_floor_sqrt_unique(lo as int, floor_sqrt(n as int), n as int);
    }
    lo as u64
}

/// `part · whole / total`, rounded down: the share of `whole` that `part` is of
/// `total`.
pub open spec fn share(part: int, whole: int, total: int) -> int {
    part * whole / total
}

/// A share of a whole lies between nothing and the whole, and is all of it when the
/// part is the total.
pub proof fn lemma_share_bounds(part: int, whole: int, total: int)
    requires
        0 <= part <= total,
        0 <= whole,
        0 < total,
    ensures
        0 <= share(part, whole, total) <= whole,
        share(0, whole, total) == 0,
        share(total, whole, total) == whole,
{
    assert(0 <= part * whole <= total * whole) by (nonlinear_arith)
        requires
            0 <= part <= total,
            0 <= whole,
    ;
    assert(0 * whole == 0) by (nonlinear_arith);
    vstd::arithmetic::div_mod::lemma_div_multiples_vanish(whole, total);
    assert(total * whole == whole * total) by (nonlinear_arith);
    vstd::arithmetic::div_mod::lemma_div_is_ordered(part * whole, total * whole, total);
    vstd::arithmetic::div_mod::lemma_div_is_ordered(0, part * whole, total);
}

/// The share of `whole` that `part` is of `total`, rounded down.
pub fn share_of(part: u64, whole: u64, total: u64) -> (r: u64)
    requires
        part <= total,
        0 < total,
    ensures
        r as int == share(part as int, whole as int, total as int),
        r <= whole,
{
    proof {
        lemma_share_bounds(part as int, whole as int, total as int);
        assert(part * whole <= 0xFFFF_FFFF_FFFF_FFFF * 0xFFFF_FFFF_FFFF_FFFF) by (nonlinear_arith)
            requires
                0 <= part <= 0xFFFF_FFFF_FFFF_FFFF,
                0 <= whole <= 0xFFFF_FFFF_FFFF_FFFF,
        ;
        assert(0xFFFF_FFFF_FFFF_FFFFint * 0xFFFF_FFFF_FFFF_FFFFint <= u128::MAX);
    }
    let product: u128 = part as u128 * whole as u128;
    (product / total as u128) as u64
}

/// The largest denominator of a `Fraction`.
pub const MAX_DENOMINATOR: u128 = 0x8000_0000_0000_0000;

/// A part of a whole, exactly: `num / den`, from nothing to all of it.
#[derive(Debug, Clone, Copy, PartialEq, Eq, Structural)]
pub struct Fraction {
    pub num: u128,
    pub den: u128,
}

impl Fraction {
    /// The numerator is not above the denominator, which is not 0 and not above
    /// `MAX_DENOMINATOR`.
    pub open spec fn wf(self) -> bool {
        self.num <= self.den && 1 <= self.den <= MAX_DENOMINATOR
    }

    /// The part of `whole` that the fraction is, rounded down.
    pub fn of(&self, whole: u64) -> (r: u64)
        requires
            self.wf(),
            whole <= i64::MAX,
        ensures
            r as int == share(self.num as int, whole as int, self.den as int),
            r <= whole,
    {
        proof {
            lemma_share_bounds(self.num as int, whole as int, self.den as int);
            assert(self.num * whole <= 0x8000_0000_0000_0000 * 0x8000_0000_0000_0000) by (nonlinear_arith)
                requires
                    0 <= self.num <= 0x8000_0000_0000_0000,
                    0 <= whole <= 0x8000_0000_0000_0000,
            ;
        }
        (self.num * whole as u128 / self.den) as u64
    }
}

} // verus!
