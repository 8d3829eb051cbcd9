//! Sums, means and square roots on whole numbers.

use vstd::prelude::*;
use crate::wide::{isqrt_wide, mul_wide, sub_wide, Wide};

verus! {

/// The sum of the values.
pub open spec fn seq_sum(values: Seq<u32>) -> int
    decreases values.len(),
{
    if values.len() == 0 {
        0
    } else {
        seq_sum(values.drop_last()) + values.last()
    }
}

/// The arithmetic mean of the values, rounded down; zero where there is
/// none.
pub open spec fn seq_mean(values: Seq<u32>) -> int {
    if values.len() == 0 {
        0
    } else {
        seq_sum(values) / (values.len() as int)
    }
}

/// The least of the values, of which there is one at the least.
pub open spec fn seq_min(values: Seq<u32>) -> u32
    decreases values.len(),
{
    if values.len() <= 1 {
        values[0]
    } else if values.last() < seq_min(values.drop_last()) {
        values.last()
    } else {
        seq_min(values.drop_last())
    }
}

/// The greatest of the values, of which there is one at the least.
pub open spec fn seq_max(values: Seq<u32>) -> u32
    decreases values.len(),
{
    if values.len() <= 1 {
        values[0]
    } else if values.last() > seq_max(values.drop_last()) {
        values.last()
    } else {
        seq_max(values.drop_last())
    }
}

/// The sum of the squared distances of the values from `center`.
pub open spec fn squared_deviations(values: Seq<u32>, center: int) -> int
    decreases values.len(),
{
    if values.len() == 0 {
        0
    } else {
        squared_deviations(values.drop_last(), center) + (values.last() - center) * (values.last()
            - center)
    }
}

/// The sum of the squares of the values.
pub open spec fn seq_square_sum(values: Seq<u32>) -> int
    decreases values.len(),
{
    if values.len() == 0 {
        0
    } else {
        seq_square_sum(values.drop_last()) + values.last() * values.last()
    }
}

/// How far the values are spread: their number times the sum of their
/// squares, less the square of their sum. It is the square of their number
/// times their variance, and the sum of the squared differences of every
/// two of them.
pub open spec fn seq_spread(values: Seq<u32>) -> int {
    values.len() * seq_square_sum(values) - seq_sum(values) * seq_sum(values)
}

/// Whether the values are all the same.
pub open spec fn all_equal(values: Seq<u32>) -> bool {
    forall|i: int, j: int|
        0 <= i < values.len() && 0 <= j < values.len() ==> values[i] == values[j]
}

/// True when `root` is the square root of `n`, rounded down.
pub open spec fn is_int_sqrt(n: int, root: int) -> bool {
    0 <= root && root * root <= n < (root + 1) * (root + 1)
}

/// The square root of `n`, rounded down.
pub open spec fn int_sqrt(n: int) -> int {
    choose|root: int| is_int_sqrt(n, root)
}

/// A number has one rounded-down square root.
pub proof fn lemma_int_sqrt_unique(n: int, a: int, b: int)
    requires
        is_int_sqrt(n, a),
        is_int_sqrt(n, b),
    ensures
        a == b,
{
    if a < b {
        assert((a + 1) * (a + 1) <= b * b) by (nonlinear_arith)
            requires
                0 <= a,
                a + 1 <= b,
        ;
    } else if b < a {
        assert((b + 1) * (b + 1) <= a * a) by (nonlinear_arith)
            requires
                0 <= b,
                b + 1 <= a,
        ;
    }
}

/// Every number from zero up has a rounded-down square root.
pub proof fn lemma_int_sqrt_exists(n: int)
    requires
        n >= 0,
    ensures
        is_int_sqrt(n, int_sqrt(n)),
{
    assert(n < (n + 1) * (n + 1)) by (nonlinear_arith)
        requires
            n >= 0,
    ;
    lemma_root_below(n, n);
}

/// A rounded-down square root of `n` is found at or below any `bound` whose
/// successor squared exceeds `n`.
proof fn lemma_root_below(n: int, bound: int)
    requires
        n >= 0,
        bound >= 0,
        n < (bound + 1) * (bound + 1),
    ensures
        exists|root: int| is_int_sqrt(n, root),
    decreases bound,
{
    if bound * bound <= n {
        assert(is_int_sqrt(n, bound));
    } else {
        assert(bound > 0) by (nonlinear_arith)
            requires
                bound >= 0,
                bound * bound > n,
                n >= 0,
        ;
        lemma_root_below(n, bound - 1);
    }
}

/// The sum of the values is at most their number times the largest value.
pub proof fn lemma_seq_sum_bound(values: Seq<u32>)
    ensures
        0 <= seq_sum(values) <= values.len() * u32::MAX,
    decreases values.len(),
{
    if values.len() > 0 {
        lemma_seq_sum_bound(values.drop_last());
        assert((values.len() - 1) * u32::MAX + u32::MAX == values.len() * u32::MAX)
            by (nonlinear_arith);
    }
}

/// The mean of the values is a value that 32 bits hold.
pub proof fn lemma_seq_mean_bound(values: Seq<u32>)
    ensures
        0 <= seq_mean(values) <= u32::MAX,
{
    lemma_seq_sum_bound(values);
    if values.len() > 0 {
        let n = values.len() as int;
        let s = seq_sum(values);
        assert(0 <= s / n <= u32::MAX) by (nonlinear_arith)
            requires
                0 <= s <= n * u32::MAX,
                n > 0,
        ;
    }
}

/// The sum of the squares of the values is at most their number times the
/// largest square.
pub proof fn lemma_square_sum_bound(values: Seq<u32>)
    ensures
        0 <= seq_square_sum(values) <= values.len() * (u32::MAX * u32::MAX),
    decreases values.len(),
{
    if values.len() > 0 {
        lemma_square_sum_bound(values.drop_last());
        let x = values.last() as int;
        assert(0 <= x * x <= u32::MAX * u32::MAX) by (nonlinear_arith)
            requires
                0 <= x <= u32::MAX,
        ;
        assert((values.len() - 1) * (u32::MAX * u32::MAX) + u32::MAX * u32::MAX == values.len() * (
        u32::MAX * u32::MAX)) by (nonlinear_arith);
    }
}

/// The squared distances from `center`, summed, in terms of the sums of the
/// values and of their squares.
proof fn lemma_deviations_expand(values: Seq<u32>, center: int)
    ensures
        squared_deviations(values, center) == seq_square_sum(values) - 2 * center * seq_sum(values)
            + values.len() * (center * center),
    decreases values.len(),
{
    if values.len() > 0 {
        let before = values.drop_last();
        lemma_deviations_expand(before, center);
        let x = values.last() as int;
        let n = before.len() as int;
        let q = seq_square_sum(before);
        let t = seq_sum(before);
        assert(q - 2 * center * t + n * (center * center) + (x - center) * (x - center) == (q + x
            * x) - 2 * center * (t + x) + (n + 1) * (center * center)) by (nonlinear_arith);
    } else {
        assert(values.len() * (center * center) == 0) by (nonlinear_arith)
            requires
                values.len() == 0,
        ;
        assert(2 * center * 0 == 0) by (nonlinear_arith);
    }
}

/// The squared distances from `center` sum to zero or more, and to zero
/// exactly when every value is `center`.
proof fn lemma_deviations_zero(values: Seq<u32>, center: int)
    ensures
        squared_deviations(values, center) >= 0,
        (squared_deviations(values, center) == 0) == (forall|i: int|
            0 <= i < values.len() ==> #[trigger] values[i] == center),
    decreases values.len(),
{
    if values.len() > 0 {
        let before = values.drop_last();
        lemma_deviations_zero(before, center);
        let d = values.last() - center;
        assert(d * d >= 0 && ((d * d == 0) == (d == 0))) by (nonlinear_arith);
        if squared_deviations(values, center) == 0 {
            assert forall|i: int| 0 <= i < values.len() implies #[trigger] values[i]
                == center by {
                if i < before.len() {
                    assert(before[i] == values[i]);
                }
            }
        }
        if forall|i: int| 0 <= i < values.len() ==> #[trigger] values[i] == center {
            assert forall|i: int| 0 <= i < before.len() implies #[trigger] before[i]
                == center by {
                assert(before[i] == values[i]);
            }
            assert(values[values.len() - 1] == center);
        }
    }
}

/// One value more spreads the values further by its squared distances from
/// the others.
proof fn lemma_spread_step(values: Seq<u32>)
    requires
        values.len() > 0,
    ensures
        seq_spread(values) == seq_spread(values.drop_last()) + squared_deviations(
            values.drop_last(),
            values.last() as int,
        ),
{
    let before = values.drop_last();
    let x = values.last() as int;
    let n = before.len() as int;
    let q = seq_square_sum(before);
    let t = seq_sum(before);
    lemma_deviations_expand(before, x);
    assert((n + 1) * (q + x * x) - (t + x) * (t + x) == (n * q - t * t) + (q - 2 * x * t + n * (x
        * x))) by (nonlinear_arith);
}

/// The spread of values is zero or more.
pub proof fn lemma_spread_nonnegative(values: Seq<u32>)
    ensures
        seq_spread(values) >= 0,
    decreases values.len(),
{
    if values.len() > 0 {
        lemma_spread_nonnegative(values.drop_last());
        lemma_spread_step(values);
        lemma_deviations_zero(values.drop_last(), values.last() as int);
    } else {
        assert(seq_spread(values) == 0) by (nonlinear_arith)
            requires
                seq_spread(values) == values.len() * seq_square_sum(values) - seq_sum(values)
                    * seq_sum(values),
                values.len() == 0,
                seq_sum(values) == 0,
        ;
    }
}

/// The sum of the squares of values is at most the square of their sum.
proof fn lemma_squares_below_squared_sum(values: Seq<u32>)
    ensures
        0 <= seq_square_sum(values) <= seq_sum(values) * seq_sum(values),
        0 <= seq_sum(values),
    decreases values.len(),
{
    if values.len() > 0 {
        lemma_squares_below_squared_sum(values.drop_last());
        let q = seq_square_sum(values.drop_last());
        let t = seq_sum(values.drop_last());
        let x = values.last() as int;
        assert(0 <= q + x * x <= (t + x) * (t + x)) by (nonlinear_arith)
            requires
                0 <= q <= t * t,
                0 <= t,
                0 <= x,
        ;
    } else {
        assert(0int * 0 == 0);
    }
}

/// The spread of values is at most their number times the square of their
/// sum.
pub proof fn lemma_spread_below_squared_sum(values: Seq<u32>)
    ensures
        seq_spread(values) <= values.len() * (seq_sum(values) * seq_sum(values)),
{
    lemma_squares_below_squared_sum(values);
    let n = values.len() as int;
    let q = seq_square_sum(values);
    let t = seq_sum(values);
    assert(n * q - t * t <= n * (t * t)) by (nonlinear_arith)
        requires
            0 <= n,
            0 <= q <= t * t,
    ;
}

/// The spread of values is zero exactly when they are all the same.
pub proof fn lemma_spread_zero_iff_equal(values: Seq<u32>)
    ensures
        (seq_spread(values) == 0) == all_equal(values),
    decreases values.len(),
{
    lemma_spread_nonnegative(values);
    if values.len() > 0 {
        let before = values.drop_last();
        let x = values.last();
        lemma_spread_zero_iff_equal(before);
        lemma_spread_nonnegative(before);
        lemma_spread_step(values);
        lemma_deviations_zero(before, x as int);
        if seq_spread(values) == 0 {
            assert forall|i: int, j: int|
                0 <= i < values.len() && 0 <= j < values.len() implies values[i] == values[j] by {
                if i < before.len() {
                    assert(before[i] == values[i]);
                }
                if j < before.len() {
                    assert(before[j] == values[j]);
                }
            }
        }
        if all_equal(values) {
            assert forall|i: int, j: int|
                0 <= i < before.len() && 0 <= j < before.len() implies before[i] == before[j] by {
                assert(before[i] == values[i]);
                assert(before[j] == values[j]);
            }
            assert forall|i: int| 0 <= i < before.len() implies #[trigger] before[i] == x by {
                assert(before[i] == values[i]);
                assert(values[values.len() - 1] == x);
            }
        }
    }
}

/// The mean of the values, rounded down.
pub fn mean(values: &Vec<u32>) -> (m: u32)
    ensures
        m == seq_mean(values@),
{
    let n: usize = values.len();
    if n == 0 {
        return 0;
    }
    let mut sum: u128 = 0;
    let mut i: usize = 0;
    while i < n
        invariant
            n == values.len(),
            0 <= i <= n,
            sum == seq_sum(values@.take(i as int)),
            sum <= i * u32::MAX,
        decreases n - i,
    {
        proof {
            assert(values@.take(i + 1).drop_last() =~= values@.take(i as int));
            assert(i * u32::MAX + u32::MAX == (i + 1) * u32::MAX) by (nonlinear_arith);
            assert((i + 1) * u32::MAX <= usize::MAX * u32::MAX) by (nonlinear_arith)
                requires
                    i + 1 <= usize::MAX,
            ;
        }
        sum = sum + values[i] as u128;
        i = i + 1;
    }
    proof {
        assert(values@.take(n as int) =~= values@);
        lemma_seq_mean_bound(values@);
    }
    (sum / (n as u128)) as u32
}

/// The sum of the values.
pub fn sum(values: &Vec<u32>) -> (total: u128)
    ensures
        total == seq_sum(values@),
        total <= values@.len() * u32::MAX,
{
    let n: usize = values.len();
    let mut total: u128 = 0;
    let mut i: usize = 0;
    while i < n
        invariant
            n == values.len(),
            0 <= i <= n,
            total == seq_sum(values@.take(i as int)),
            total <= i * u32::MAX,
        decreases n - i,
    {
        proof {
            assert(values@.take(i + 1).drop_last() =~= values@.take(i as int));
            assert(i * u32::MAX + u32::MAX == (i + 1) * u32::MAX) by (nonlinear_arith);
            assert((i + 1) * u32::MAX <= usize::MAX * u32::MAX) by (nonlinear_arith)
                requires
                    i + 1 <= usize::MAX,
            ;
        }
        total = total + values[i] as u128;
        i = i + 1;
    }
    proof {
        assert(values@.take(n as int) =~= values@);
    }
    total
}

/// The sum of the squares of the values.
pub fn square_sum(values: &Vec<u32>) -> (total: u128)
    ensures
        total == seq_square_sum(values@),
        total <= values@.len() * (u32::MAX * u32::MAX),
{
    let n: usize = values.len();
    let mut total: u128 = 0;
    let mut i: usize = 0;
    while i < n
        invariant
            n == values.len(),
            0 <= i <= n,
            total == seq_square_sum(values@.take(i as int)),
            total <= i * (u32::MAX * u32::MAX),
        decreases n - i,
    {
        let x: u64 = values[i] as u64;
        proof {
            assert(values@.take(i + 1).drop_last() =~= values@.take(i as int));
            assert(0 <= x * x <= u32::MAX * u32::MAX) by (nonlinear_arith)
                requires
                    0 <= x <= u32::MAX,
            ;
            assert(i * (u32::MAX * u32::MAX) + u32::MAX * u32::MAX == (i + 1) * (u32::MAX
                * u32::MAX)) by (nonlinear_arith);
            assert((i + 1) * (u32::MAX * u32::MAX) <= usize::MAX * (u32::MAX * u32::MAX))
                by (nonlinear_arith)
                requires
                    i + 1 <= usize::MAX,
            ;
        }
        total = total + (x * x) as u128;
        i = i + 1;
    }
    proof {
        assert(values@.take(n as int) =~= values@);
    }
    total
}

/// The square root of the spread of the values, rounded down: their number
/// times their standard deviation, but for the rounding.
pub fn spread_root(values: &Vec<u32>) -> (root: u128)
    ensures
        root == int_sqrt(seq_spread(values@)),
        is_int_sqrt(seq_spread(values@), root as int),
        root < 0x1_0000_0000_0000_0000_0000_0000,
{
    let count: u128 = values.len() as u128;
    let total: u128 = sum(values);
    let squares: u128 = square_sum(values);
    proof {
        lemma_spread_nonnegative(values@);
    }
    let spread: Wide = sub_wide(mul_wide(count, squares), mul_wide(total, total));
    let root: u128 = isqrt_wide(spread);
    proof {
        let d = seq_spread(values@);
        let n = values@.len() as int;
        let q = squares as int;
        let t = total as int;
        assert(d <= n * q) by (nonlinear_arith)
            requires
                d == n * q - t * t,
        ;
        assert(n * q < 0x1_0000_0000_0000_0000 * 0x1_0000_0000_0000_0000_0000_0000_0000_0000int)
            by (nonlinear_arith)
            requires
                0 <= n <= usize::MAX,
                usize::MAX <= 0xffff_ffff_ffff_ffff,
                0 <= q <= n * (u32::MAX * u32::MAX),
        ;
        let r = root as int;
        assert(r < 0x1_0000_0000_0000_0000_0000_0000) by (nonlinear_arith)
            requires
                r >= 0,
                r * r < 0x1_0000_0000_0000_0000 * 0x1_0000_0000_0000_0000_0000_0000_0000_0000int,
        ;
    }
    root
}

/// The least and the greatest of the values are values, and none is less
/// or greater.
pub proof fn lemma_min_max(values: Seq<u32>)
    requires
        values.len() > 0,
    ensures
        values.contains(seq_min(values)),
        values.contains(seq_max(values)),
        forall|i: int| 0 <= i < values.len() ==> seq_min(values) <= #[trigger] values[i] <= seq_max(
            values,
        ),
    decreases values.len(),
{
    if values.len() > 1 {
        let before = values.drop_last();
        lemma_min_max(before);
        let i_min = choose|i: int| 0 <= i < before.len() && before[i] == seq_min(before);
        let i_max = choose|i: int| 0 <= i < before.len() && before[i] == seq_max(before);
        assert(values[i_min] == seq_min(before));
        assert(values[i_max] == seq_max(before));
        assert(values[values.len() - 1] == values.last());
        assert forall|i: int| 0 <= i < values.len() implies seq_min(values) <= #[trigger] values[i]
            <= seq_max(values) by {
            if i < before.len() {
                assert(before[i] == values[i]);
            }
        }
    } else {
        assert(values[0] == seq_min(values));
    }
}

/// The sum of values lies between their number times a lower bound and
/// their number times an upper bound.
proof fn lemma_sum_between(values: Seq<u32>, low: int, high: int)
    requires
        forall|i: int| 0 <= i < values.len() ==> low <= #[trigger] values[i] <= high,
    ensures
        values.len() * low <= seq_sum(values) <= values.len() * high,
    decreases values.len(),
{
    if values.len() > 0 {
        let before = values.drop_last();
        assert forall|i: int| 0 <= i < before.len() implies low <= #[trigger] before[i]
            <= high by {
            assert(before[i] == values[i]);
        }
        lemma_sum_between(before, low, high);
        assert(values[values.len() - 1] == values.last());
        assert((values.len() - 1) * low + low == values.len() * low) by (nonlinear_arith);
        assert((values.len() - 1) * high + high == values.len() * high) by (nonlinear_arith);
    } else {
        assert(values.len() * low == 0) by (nonlinear_arith)
            requires
                values.len() == 0,
        ;
        assert(values.len() * high == 0) by (nonlinear_arith)
            requires
                values.len() == 0,
        ;
    }
}

/// The mean of the values lies between the least and the greatest.
pub proof fn lemma_mean_between(values: Seq<u32>)
    requires
        values.len() > 0,
    ensures
        seq_min(values) <= seq_mean(values) <= seq_max(values),
{
    lemma_min_max(values);
    let low = seq_min(values) as int;
    let high = seq_max(values) as int;
    lemma_sum_between(values, low, high);
    let n = values.len() as int;
    let sum = seq_sum(values);
    assert(low <= sum / n <= high) by (nonlinear_arith)
        requires
            n > 0,
            n * low <= sum <= n * high,
    ;
}

/// The least of the values.
pub fn lowest(values: &Vec<u32>) -> (least: u32)
    requires
        values.len() > 0,
    ensures
        least == seq_min(values@),
{
    let mut least: u32 = values[0];
    let mut i: usize = 1;
    assert(values@.take(1).len() == 1);
    while i < values.len()
        invariant
            1 <= i <= values.len(),
            least == seq_min(values@.take(i as int)),
        decreases values.len() - i,
    {
        proof {
            assert(values@.take(i + 1).drop_last() =~= values@.take(i as int));
        }
        if values[i] < least {
            least = values[i];
        }
        i = i + 1;
    }
    proof {
        assert(values@.take(values.len() as int) =~= values@);
    }
    least
}

/// The greatest of the values.
pub fn highest(values: &Vec<u32>) -> (greatest: u32)
    requires
        values.len() > 0,
    ensures
        greatest == seq_max(values@),
{
    let mut greatest: u32 = values[0];
    let mut i: usize = 1;
    assert(values@.take(1).len() == 1);
    while i < values.len()
        invariant
            1 <= i <= values.len(),
            greatest == seq_max(values@.take(i as int)),
        decreases values.len() - i,
    {
        proof {
            assert(values@.take(i + 1).drop_last() =~= values@.take(i as int));
        }
        if values[i] > greatest {
            greatest = values[i];
        }
        i = i + 1;
    }
    proof {
        assert(values@.take(values.len() as int) =~= values@);
    }
    greatest
}

} // verus!
