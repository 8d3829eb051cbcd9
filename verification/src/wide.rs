//! Whole numbers of 256 bits, as far as sums of squares need them.

use vstd::prelude::*;
use crate::stats::{int_sqrt, is_int_sqrt, lemma_int_sqrt_unique};

verus! {

/// A number of 256 bits in two halves.
#[derive(Debug, Clone, Copy)]
pub struct Wide {
    pub hi: u128,
    pub lo: u128,
}

/// Two to the power 64.
pub open spec fn two_64() -> int {
    0x1_0000_0000_0000_0000
}

/// Two to the power 128.
pub open spec fn two_128() -> int {
    0x1_0000_0000_0000_0000_0000_0000_0000_0000int
}

impl Wide {
    /// The number that the two halves make.
    pub open spec fn value(self) -> int {
        self.hi * two_128() + self.lo
    }
}

/// The product of two numbers of 128 bits.
pub fn mul_wide(a: u128, b: u128) -> (p: Wide)
    ensures
        p.value() == a * b,
{
    let a0: u128 = a % 0x1_0000_0000_0000_0000;
    let a1: u128 = a / 0x1_0000_0000_0000_0000;
    let b0: u128 = b % 0x1_0000_0000_0000_0000;
    let b1: u128 = b / 0x1_0000_0000_0000_0000;
    proof {
        assert(a0 * b0 <= 0xffff_ffff_ffff_ffff * 0xffff_ffff_ffff_ffff) by (nonlinear_arith)
            requires
                0 <= a0 <= 0xffff_ffff_ffff_ffff,
                0 <= b0 <= 0xffff_ffff_ffff_ffff,
        ;
        assert(a0 * b1 <= 0xffff_ffff_ffff_ffff * 0xffff_ffff_ffff_ffff) by (nonlinear_arith)
            requires
                0 <= a0 <= 0xffff_ffff_ffff_ffff,
                0 <= b1 <= 0xffff_ffff_ffff_ffff,
        ;
        assert(a1 * b0 <= 0xffff_ffff_ffff_ffff * 0xffff_ffff_ffff_ffff) by (nonlinear_arith)
            requires
                0 <= a1 <= 0xffff_ffff_ffff_ffff,
                0 <= b0 <= 0xffff_ffff_ffff_ffff,
        ;
        assert(a1 * b1 <= 0xffff_ffff_ffff_ffff * 0xffff_ffff_ffff_ffff) by (nonlinear_arith)
            requires
                0 <= a1 <= 0xffff_ffff_ffff_ffff,
                0 <= b1 <= 0xffff_ffff_ffff_ffff,
        ;
    }
    let p00: u128 = a0 * b0;
    let p01: u128 = a0 * b1;
    let p10: u128 = a1 * b0;
    let p11: u128 = a1 * b1;
    let middle: u128 = p00 / 0x1_0000_0000_0000_0000 + p01 % 0x1_0000_0000_0000_0000 + p10
        % 0x1_0000_0000_0000_0000;
    let lo: u128 = (middle % 0x1_0000_0000_0000_0000) * 0x1_0000_0000_0000_0000 + p00
        % 0x1_0000_0000_0000_0000;
    let hi: u128 = p11 + p01 / 0x1_0000_0000_0000_0000 + p10 / 0x1_0000_0000_0000_0000 + middle
        / 0x1_0000_0000_0000_0000;
    proof {
        let base = two_64();
        assert(hi * two_128() + lo == p11 * two_128() + (p01 + p10) * base + p00);
        assert(a * b == p11 * two_128() + (p01 + p10) * base + p00) by (nonlinear_arith)
            requires
                a == a1 * base + a0,
                b == b1 * base + b0,
                p00 == a0 * b0,
                p01 == a0 * b1,
                p10 == a1 * b0,
                p11 == a1 * b1,
                two_128() == base * base,
        ;
    }
    Wide { hi, lo }
}

/// Whether `a` is at most `b`.
pub fn le_wide(a: Wide, b: Wide) -> (r: bool)
    ensures
        r == (a.value() <= b.value()),
{
    a.hi < b.hi || (a.hi == b.hi && a.lo <= b.lo)
}

/// The difference of two numbers, the first being no less than the second.
pub fn sub_wide(a: Wide, b: Wide) -> (d: Wide)
    requires
        a.value() >= b.value(),
    ensures
        d.value() == a.value() - b.value(),
{
    if a.lo >= b.lo {
        Wide { hi: a.hi - b.hi, lo: a.lo - b.lo }
    } else {
        Wide { hi: a.hi - b.hi - 1, lo: (u128::MAX - b.lo) + a.lo + 1 }
    }
}

/// The square root of `n`, rounded down.
pub fn isqrt_wide(n: Wide) -> (root: u128)
    ensures
        is_int_sqrt(n.value(), root as int),
        root == int_sqrt(n.value()),
{
    let top: Wide = mul_wide(u128::MAX, u128::MAX);
    let mut low: u128 = 0;
    let mut high: u128 = u128::MAX;
    if le_wide(top, n) {
        low = u128::MAX;
        proof {
            assert((u128::MAX + 1) * (u128::MAX + 1) == two_128() * two_128())
                by (nonlinear_arith)
                requires
                    u128::MAX + 1 == two_128(),
            ;
            assert(n.hi * two_128() <= u128::MAX * two_128()) by (nonlinear_arith)
                requires
                    n.hi <= u128::MAX,
                    two_128() > 0,
            ;
        }
    } else {
        while high - low > 1
            invariant
                0 <= low < high <= u128::MAX,
                low * low <= n.value() < high * high,
            decreases high - low,
        {
            let mid: u128 = low + (high - low) / 2;
            let square: Wide = mul_wide(mid, mid);
            if le_wide(square, n) {
                low = mid;
            } else {
                high = mid;
            }
        }
    }
    proof {
        assert(is_int_sqrt(n.value(), low as int));
        lemma_int_sqrt_unique(n.value(), low as int, int_sqrt(n.value()));
    }
    low
}

} // verus!
