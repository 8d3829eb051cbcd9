//! The equal-tempered scale as a grid over frequencies.
//!
//! Frequencies are whole millihertz. A pitch lies `k` quarter tones above
//! A4 (440 Hz) when its frequency is `440 Hz * 2^(k/24)`. Every point of that
//! grid but the octaves of A4 is irrational, so a comparison against it is a
//! comparison of 24th powers, which is exact on integers.

use vstd::prelude::*;
use vstd::arithmetic::power::*;
use vstd::arithmetic::power2::*;

verus! {

/// The frequency of A4, in millihertz.
pub const A4_MILLIHZ: u32 = 440_000;

/// The frequency of A4 thirteen octaves up, in millihertz: the lower end of
/// the one octave that the table of quarter tones covers. Every frequency of
/// 32 bits reaches that octave by doubling.
pub const TABLE_BASE: u64 = 3_604_480_000;

/// The octaves between A4 and the octave of the table.
pub const TABLE_OCTAVE: u32 = 13;

/// True when `hz / 440 Hz >= 2^(k/24)`: the frequency `hz`, in millihertz,
/// lies at least `k` quarter tones above A4 (below, for a negative `k`).
pub open spec fn at_least_quarter_tones(hz: int, k: int) -> bool {
    pow(hz, 24) * pow2((if k < 0 { -k } else { 0 }) as nat)
        >= pow(A4_MILLIHZ as int, 24) * pow2((if k < 0 { 0 } else { k }) as nat)
}

/// True when `q == floor(24 * log2(hz / 440 Hz))`.
pub open spec fn is_quarter_tone_floor(hz: int, q: int) -> bool {
    at_least_quarter_tones(hz, q) && !at_least_quarter_tones(hz, q + 1)
}

/// The whole quarter tones by which `hz` lies above A4, rounded down:
/// `floor(24 * log2(hz / 440 Hz))`, for a positive `hz`.
pub open spec fn quarter_tones_above_a4(hz: int) -> int {
    choose|q: int| is_quarter_tone_floor(hz, q)
}

/// The least whole number of millihertz that lies `k` quarter tones or more
/// above the base of the table: the ceiling of `TABLE_BASE * 2^(k/24)`.
pub open spec fn quarter_tone_bound(k: int) -> int {
    if k == 0 {
        3_604_480_000
    } else if k == 1 {
        3_710_099_326
    } else if k == 2 {
        3_818_813_535
    } else if k == 3 {
        3_930_713_313
    } else if k == 4 {
        4_045_892_004
    } else if k == 5 {
        4_164_445_689
    } else if k == 6 {
        4_286_473_262
    } else if k == 7 {
        4_412_076_516
    } else if k == 8 {
        4_541_360_226
    } else if k == 9 {
        4_674_432_238
    } else if k == 10 {
        4_811_403_558
    } else if k == 11 {
        4_952_388_444
    } else if k == 12 {
        5_097_504_502
    } else if k == 13 {
        5_246_872_785
    } else if k == 14 {
        5_400_617_893
    } else if k == 15 {
        5_558_868_076
    } else if k == 16 {
        5_721_755_344
    } else if k == 17 {
        5_889_415_573
    } else if k == 18 {
        6_061_988_622
    } else if k == 19 {
        6_239_618_447
    } else if k == 20 {
        6_422_453_224
    } else if k == 21 {
        6_610_645_468
    } else if k == 22 {
        6_804_352_166
    } else if k == 23 {
        7_003_734_903
    } else {
        7_208_960_000
    }
}

/// The doublings that bring `hz` into the octave of the table.
pub open spec fn octave_shift(hz: int) -> nat
    decreases
        (if hz < TABLE_BASE {
            TABLE_BASE - hz
        } else {
            0
        }),
{
    if 0 < hz < TABLE_BASE {
        1 + octave_shift(2 * hz)
    } else {
        0
    }
}

/// The quarter tone of the table's octave that holds `x`, searched upwards
/// from `k`.
pub open spec fn quarter_tone_index_from(x: int, k: int) -> int
    decreases 24 - k,
{
    if k < 23 && quarter_tone_bound(k + 1) <= x {
        quarter_tone_index_from(x, k + 1)
    } else {
        k
    }
}

/// The quotient `n / d` rounded to the nearest integer, halves upwards.
pub open spec fn rounded_div(n: int, d: int) -> int {
    (2 * n + d) / (2 * d)
}

/// The position of `hz` on the scale, in cents above A4: an approximation of
/// `1200 * log2(hz / 440 Hz)` by whole numbers.
///
/// The frequency is doubled into the octave of the table. At each entry of
/// the table the position is the multiple of 50 of that entry. Between two
/// neighbouring entries it is interpolated linearly in the frequency and
/// rounded to the nearest cent.
///
/// What is proved of it: it lies in the quarter tone that holds the
/// frequency, between `50 * q` and `50 * q + 50` for the exact
/// `q = floor(24 * log2(hz / 440 Hz))`, so that it is less than 50 cents
/// from the logarithm (`lemma_cents_within_quarter_tone`); it rises with the
/// frequency (`lemma_cents_monotonic`); and it is 1200 more for twice the
/// frequency (`lemma_octave_is_1200_cents`). How near it comes to the
/// logarithm within the quarter tone is not proved.
pub open spec fn cents_above_a4(hz: int) -> int {
    let s = octave_shift(hz);
    let x = hz * pow2(s);
    let k = quarter_tone_index_from(x, 0);
    let low = quarter_tone_bound(k);
    let high = quarter_tone_bound(k + 1);
    1200 * (TABLE_OCTAVE - s) + 50 * k + rounded_div(50 * (x - low), high - low)
}

/// The 24th power of `x`, by squaring.
spec fn chain24(x: int) -> int {
    let x2 = x * x;
    let x4 = x2 * x2;
    let x8 = x4 * x4;
    let x16 = x8 * x8;
    x16 * x8
}

/// Squaring gives the 24th power.
proof fn lemma_chain24(x: int)
    ensures
        pow(x, 24) == chain24(x),
{
    lemma_pow1(x);
    lemma_pow_adds(x, 1, 1);
    lemma_pow_adds(x, 2, 2);
    lemma_pow_adds(x, 4, 4);
    lemma_pow_adds(x, 8, 8);
    lemma_pow_adds(x, 16, 8);
}

/// A power grows with its base.
proof fn lemma_pow_base_increases(a: int, b: int, e: nat)
    requires
        0 <= a <= b,
    ensures
        0 <= pow(a, e) <= pow(b, e),
    decreases e,
{
    reveal(pow);
    if e > 0 {
        lemma_pow_base_increases(a, b, (e - 1) as nat);
        let pa = pow(a, (e - 1) as nat);
        let pb = pow(b, (e - 1) as nat);
        assert(0 <= a * pa <= b * pb) by (nonlinear_arith)
            requires
                0 <= a <= b,
                0 <= pa <= pb,
        ;
    }
}

/// An inequality keeps its sense when both sides are multiplied by a
/// positive number.
proof fn lemma_scale_both(a: int, b: int, c: int)
    requires
        c > 0,
    ensures
        (a >= b) == (a * c >= b * c),
{
    assert((a >= b) == (a * c >= b * c)) by (nonlinear_arith)
        requires
            c > 0,
    ;
}

/// `hz^24 * 2^b >= 440000^24 * 2^a` says the same as
/// `at_least_quarter_tones(hz, a - b)`.
proof fn lemma_at_least_scaled(hz: int, a: nat, b: nat)
    ensures
        at_least_quarter_tones(hz, a - b) == (pow(hz, 24) * pow2(b) >= pow(440_000, 24) * pow2(a)),
{
    let p = pow(hz, 24);
    let r = pow(440_000, 24);
    let pa = pow2(a) as int;
    let pb = pow2(b) as int;
    lemma2_to64();
    lemma_pow2_pos(a);
    lemma_pow2_pos(b);
    if a >= b {
        let k = (a - b) as nat;
        let pk = pow2(k) as int;
        lemma_pow2_adds(k, b);
        assert(p * pow2(0) == p) by (nonlinear_arith)
            requires
                pow2(0) == 1,
        ;
        assert(at_least_quarter_tones(hz, a - b) == (p >= r * pk));
        lemma_scale_both(p, r * pk, pb);
        assert((r * pk) * pb == r * pa) by (nonlinear_arith)
            requires
                pa == pk * pb,
        ;
    } else {
        let k = (b - a) as nat;
        let pk = pow2(k) as int;
        lemma_pow2_adds(k, a);
        assert(r * pow2(0) == r) by (nonlinear_arith)
            requires
                pow2(0) == 1,
        ;
        assert(at_least_quarter_tones(hz, a - b) == (p * pk >= r));
        lemma_scale_both(p * pk, r, pa);
        assert((p * pk) * pa == p * pb) by (nonlinear_arith)
            requires
                pb == pk * pa,
        ;
    }
}

/// A pitch that lies `k` quarter tones above A4 lies `j` above it for every
/// smaller `j`.
pub proof fn lemma_at_least_monotonic(hz: int, j: int, k: int)
    requires
        hz >= 0,
        j <= k,
        at_least_quarter_tones(hz, k),
    ensures
        at_least_quarter_tones(hz, j),
{
    let b: nat = ((if j < 0 { -j } else { j }) + (if k < 0 { -k } else { k })) as nat;
    let aj: nat = (b + j) as nat;
    let ak: nat = (b + k) as nat;
    lemma_at_least_scaled(hz, aj, b);
    lemma_at_least_scaled(hz, ak, b);
    if aj < ak {
        lemma_pow2_strictly_increases(aj, ak);
    }
    lemma_pow_positive(440_000, 24);
    let r = pow(440_000, 24);
    assert(r * pow2(aj) <= r * pow2(ak)) by (nonlinear_arith)
        requires
            r > 0,
            pow2(aj) <= pow2(ak),
    ;
}

/// The rounded-down quarter-tone distance from A4 is unique.
pub proof fn lemma_quarter_tone_floor_unique(hz: int, q1: int, q2: int)
    requires
        hz >= 0,
        is_quarter_tone_floor(hz, q1),
        is_quarter_tone_floor(hz, q2),
    ensures
        q1 == q2,
{
    if q1 < q2 {
        lemma_at_least_monotonic(hz, q1 + 1, q2);
    } else if q2 < q1 {
        lemma_at_least_monotonic(hz, q2 + 1, q1);
    }
}

/// The 24th powers on either side of each entry of the table.
proof fn lemma_table_powers()
    ensures
        forall|k: int|
            1 <= k <= 23 ==> chain24(#[trigger] quarter_tone_bound(k) - 1) < chain24(
                TABLE_BASE as int,
            ) * pow2(k as nat) < chain24(quarter_tone_bound(k)),
{
    lemma2_to64();
    assert(chain24(3_710_099_325) < chain24(3_604_480_000) * 2) by (nonlinear_arith);
    assert(chain24(3_710_099_326) > chain24(3_604_480_000) * 2) by (nonlinear_arith);
    assert(chain24(3_818_813_534) < chain24(3_604_480_000) * 4) by (nonlinear_arith);
    assert(chain24(3_818_813_535) > chain24(3_604_480_000) * 4) by (nonlinear_arith);
    assert(chain24(3_930_713_312) < chain24(3_604_480_000) * 8) by (nonlinear_arith);
    assert(chain24(3_930_713_313) > chain24(3_604_480_000) * 8) by (nonlinear_arith);
    assert(chain24(4_045_892_003) < chain24(3_604_480_000) * 16) by (nonlinear_arith);
    assert(chain24(4_045_892_004) > chain24(3_604_480_000) * 16) by (nonlinear_arith);
    assert(chain24(4_164_445_688) < chain24(3_604_480_000) * 32) by (nonlinear_arith);
    assert(chain24(4_164_445_689) > chain24(3_604_480_000) * 32) by (nonlinear_arith);
    assert(chain24(4_286_473_261) < chain24(3_604_480_000) * 64) by (nonlinear_arith);
    assert(chain24(4_286_473_262) > chain24(3_604_480_000) * 64) by (nonlinear_arith);
    assert(chain24(4_412_076_515) < chain24(3_604_480_000) * 128) by (nonlinear_arith);
    assert(chain24(4_412_076_516) > chain24(3_604_480_000) * 128) by (nonlinear_arith);
    assert(chain24(4_541_360_225) < chain24(3_604_480_000) * 256) by (nonlinear_arith);
    assert(chain24(4_541_360_226) > chain24(3_604_480_000) * 256) by (nonlinear_arith);
    assert(chain24(4_674_432_237) < chain24(3_604_480_000) * 512) by (nonlinear_arith);
    assert(chain24(4_674_432_238) > chain24(3_604_480_000) * 512) by (nonlinear_arith);
    assert(chain24(4_811_403_557) < chain24(3_604_480_000) * 1_024) by (nonlinear_arith);
    assert(chain24(4_811_403_558) > chain24(3_604_480_000) * 1_024) by (nonlinear_arith);
    assert(chain24(4_952_388_443) < chain24(3_604_480_000) * 2_048) by (nonlinear_arith);
    assert(chain24(4_952_388_444) > chain24(3_604_480_000) * 2_048) by (nonlinear_arith);
    assert(chain24(5_097_504_501) < chain24(3_604_480_000) * 4_096) by (nonlinear_arith);
    assert(chain24(5_097_504_502) > chain24(3_604_480_000) * 4_096) by (nonlinear_arith);
    assert(chain24(5_246_872_784) < chain24(3_604_480_000) * 8_192) by (nonlinear_arith);
    assert(chain24(5_246_872_785) > chain24(3_604_480_000) * 8_192) by (nonlinear_arith);
    assert(chain24(5_400_617_892) < chain24(3_604_480_000) * 16_384) by (nonlinear_arith);
    assert(chain24(5_400_617_893) > chain24(3_604_480_000) * 16_384) by (nonlinear_arith);
    assert(chain24(5_558_868_075) < chain24(3_604_480_000) * 32_768) by (nonlinear_arith);
    assert(chain24(5_558_868_076) > chain24(3_604_480_000) * 32_768) by (nonlinear_arith);
    assert(chain24(5_721_755_343) < chain24(3_604_480_000) * 65_536) by (nonlinear_arith);
    assert(chain24(5_721_755_344) > chain24(3_604_480_000) * 65_536) by (nonlinear_arith);
    assert(chain24(5_889_415_572) < chain24(3_604_480_000) * 131_072) by (nonlinear_arith);
    assert(chain24(5_889_415_573) > chain24(3_604_480_000) * 131_072) by (nonlinear_arith);
    assert(chain24(6_061_988_621) < chain24(3_604_480_000) * 262_144) by (nonlinear_arith);
    assert(chain24(6_061_988_622) > chain24(3_604_480_000) * 262_144) by (nonlinear_arith);
    assert(chain24(6_239_618_446) < chain24(3_604_480_000) * 524_288) by (nonlinear_arith);
    assert(chain24(6_239_618_447) > chain24(3_604_480_000) * 524_288) by (nonlinear_arith);
    assert(chain24(6_422_453_223) < chain24(3_604_480_000) * 1_048_576) by (nonlinear_arith);
    assert(chain24(6_422_453_224) > chain24(3_604_480_000) * 1_048_576) by (nonlinear_arith);
    assert(chain24(6_610_645_467) < chain24(3_604_480_000) * 2_097_152) by (nonlinear_arith);
    assert(chain24(6_610_645_468) > chain24(3_604_480_000) * 2_097_152) by (nonlinear_arith);
    assert(chain24(6_804_352_165) < chain24(3_604_480_000) * 4_194_304) by (nonlinear_arith);
    assert(chain24(6_804_352_166) > chain24(3_604_480_000) * 4_194_304) by (nonlinear_arith);
    assert(chain24(7_003_734_902) < chain24(3_604_480_000) * 8_388_608) by (nonlinear_arith);
    assert(chain24(7_003_734_903) > chain24(3_604_480_000) * 8_388_608) by (nonlinear_arith);
}

/// Each entry of the table is the least whole frequency at or above its
/// quarter tone.
proof fn lemma_bound_exact(k: int, x: int)
    requires
        0 <= k <= 24,
        x >= 0,
    ensures
        (x >= quarter_tone_bound(k)) == (pow(x, 24) >= pow(TABLE_BASE as int, 24) * pow2(k as nat)),
{
    let t = quarter_tone_bound(k);
    let c = pow(TABLE_BASE as int, 24);
    let limit = c * pow2(k as nat);
    lemma_chain24(TABLE_BASE as int);
    lemma_chain24(t);
    lemma_chain24(t - 1);
    lemma2_to64();
    assert(pow(t - 1, 24) < limit <= pow(t, 24)) by {
        if k == 0 {
            assert(chain24(3_604_479_999) < chain24(3_604_480_000)) by (nonlinear_arith);
            assert(c * pow2(0) == c) by (nonlinear_arith)
                requires
                    pow2(0) == 1,
            ;
        } else if k == 24 {
            assert(chain24(7_208_960_000) == chain24(3_604_480_000) * 16_777_216)
                by (nonlinear_arith);
            assert(chain24(7_208_959_999) < chain24(3_604_480_000) * 16_777_216)
                by (nonlinear_arith);
        } else {
            lemma_table_powers();
            assert(chain24(quarter_tone_bound(k) - 1) < chain24(TABLE_BASE as int) * pow2(k as nat)
                < chain24(quarter_tone_bound(k)));
        }
    }
    if x >= t {
        lemma_pow_base_increases(t, x, 24);
    } else {
        lemma_pow_base_increases(x, t - 1, 24);
    }
}

/// A frequency doubled `s` times meets the entry `j` of the table exactly
/// when it lies `24 * (13 - s) + j` quarter tones above A4.
proof fn lemma_grid_point(hz: int, s: nat, j: int)
    requires
        hz > 0,
        0 <= j <= 24,
    ensures
        (hz * pow2(s) >= quarter_tone_bound(j)) == at_least_quarter_tones(hz, 312 + j - 24 * s),
{
    let x = hz * pow2(s);
    lemma_pow2_pos(s);
    assert(x >= 0) by (nonlinear_arith)
        requires
            x == hz * pow2(s),
            hz > 0,
            pow2(s) > 0,
    ;
    lemma_bound_exact(j, x);
    // x^24 == hz^24 * 2^(24 s)
    lemma_pow_distributes(hz, pow2(s) as int, 24);
    lemma_pow2(s);
    lemma_pow_multiplies(2, s, 24);
    lemma_pow2(24 * s);
    assert(pow(x, 24) == pow(hz, 24) * pow2(24 * s));
    // TABLE_BASE^24 == 440000^24 * 2^312
    lemma2_to64();
    assert(TABLE_BASE as int == 440_000 * pow2(13));
    lemma_pow_distributes(440_000, pow2(13) as int, 24);
    lemma_pow2(13);
    lemma_pow_multiplies(2, 13, 24);
    lemma_pow2(312);
    assert(pow(TABLE_BASE as int, 24) == pow(440_000, 24) * pow2(312));
    lemma_pow2_adds(312, j as nat);
    let r = pow(440_000, 24);
    assert(r * pow2(312) * pow2(j as nat) == r * pow2((312 + j) as nat)) by (nonlinear_arith)
        requires
            pow2((312 + j) as nat) == pow2(312) * pow2(j as nat),
    ;
    lemma_at_least_scaled(hz, (312 + j) as nat, 24 * s);
}

/// The entries of the table increase.
proof fn lemma_bounds_increase(k: int)
    requires
        0 <= k < 24,
    ensures
        TABLE_BASE <= quarter_tone_bound(k) < quarter_tone_bound(k + 1) <= 2 * TABLE_BASE,
{
}

/// What the search of the table finds is the quarter tone of `hz`.
proof fn lemma_located(hz: int, s: nat, k: int)
    requires
        hz > 0,
        0 <= k < 24,
        quarter_tone_bound(k) <= hz * pow2(s) < quarter_tone_bound(k + 1),
    ensures
        quarter_tones_above_a4(hz) == 24 * (TABLE_OCTAVE - s) + k,
{
    let q = 312 + k - 24 * s;
    lemma_grid_point(hz, s, k);
    lemma_grid_point(hz, s, k + 1);
    assert(is_quarter_tone_floor(hz, q));
    lemma_quarter_tone_floor_unique(hz, q, quarter_tones_above_a4(hz));
}

/// The entry `k` of the table.
fn table_bound(k: u32) -> (r: u64)
    requires
        k <= 24,
    ensures
        r == quarter_tone_bound(k as int),
{
    if k == 0 {
        3_604_480_000
    } else if k == 1 {
        3_710_099_326
    } else if k == 2 {
        3_818_813_535
    } else if k == 3 {
        3_930_713_313
    } else if k == 4 {
        4_045_892_004
    } else if k == 5 {
        4_164_445_689
    } else if k == 6 {
        4_286_473_262
    } else if k == 7 {
        4_412_076_516
    } else if k == 8 {
        4_541_360_226
    } else if k == 9 {
        4_674_432_238
    } else if k == 10 {
        4_811_403_558
    } else if k == 11 {
        4_952_388_444
    } else if k == 12 {
        5_097_504_502
    } else if k == 13 {
        5_246_872_785
    } else if k == 14 {
        5_400_617_893
    } else if k == 15 {
        5_558_868_076
    } else if k == 16 {
        5_721_755_344
    } else if k == 17 {
        5_889_415_573
    } else if k == 18 {
        6_061_988_622
    } else if k == 19 {
        6_239_618_447
    } else if k == 20 {
        6_422_453_224
    } else if k == 21 {
        6_610_645_468
    } else if k == 22 {
        6_804_352_166
    } else if k == 23 {
        7_003_734_903
    } else {
        7_208_960_000
    }
}

/// A frequency together with its place in the table.
struct Located {
    /// The doublings that brought the frequency into the table's octave.
    shift: u32,
    /// The frequency after those doublings.
    scaled: u64,
    /// The entry of the table at or below `scaled`.
    index: u32,
}

/// Doubles a frequency into the octave of the table and finds its place
/// there.
fn locate(hz: u32) -> (r: Located)
    requires
        hz > 0,
    ensures
        r.shift == octave_shift(hz as int),
        r.shift <= 32,
        r.scaled == hz * pow2(r.shift as nat),
        r.index == quarter_tone_index_from(r.scaled as int, 0),
        r.index < 24,
        quarter_tone_bound(r.index as int) <= r.scaled < quarter_tone_bound(r.index + 1),
{
    let mut x: u64 = hz as u64;
    let mut s: u32 = 0;
    proof {
        lemma2_to64();
    }
    while x < TABLE_BASE
        invariant
            0 < x < 2 * TABLE_BASE,
            s <= 32,
            x == hz * pow2(s as nat),
            octave_shift(hz as int) == s + octave_shift(x as int),
        decreases 2 * TABLE_BASE - x,
    {
        proof {
            lemma_pow2_unfold((s + 1) as nat);
            assert(2 * (hz * pow2(s as nat)) == hz * (2 * pow2(s as nat))) by (nonlinear_arith);
            if s >= 32 {
                lemma2_to64();
                if s > 32 {
                    lemma_pow2_strictly_increases(32, s as nat);
                }
                assert(hz * pow2(s as nat) >= pow2(s as nat)) by (nonlinear_arith)
                    requires
                        hz >= 1,
                ;
            }
        }
        x = 2 * x;
        s = s + 1;
    }
    let mut k: u32 = 0;
    while k < 23 && table_bound(k + 1) <= x
        invariant
            k <= 23,
            TABLE_BASE <= x < 2 * TABLE_BASE,
            quarter_tone_bound(k as int) <= x,
            quarter_tone_index_from(x as int, 0) == quarter_tone_index_from(x as int, k as int),
        decreases 23 - k,
    {
        k = k + 1;
    }
    Located { shift: s, scaled: x, index: k }
}

/// The whole quarter tones by which `hz` lies above A4, rounded down.
pub fn quarter_tones_from_a4(hz: u32) -> (q: i32)
    requires
        hz > 0,
    ensures
        q == quarter_tones_above_a4(hz as int),
        is_quarter_tone_floor(hz as int, q as int),
        -456 <= q <= 335,
{
    let at = locate(hz);
    proof {
        lemma_located(hz as int, at.shift as nat, at.index as int);
        lemma_grid_point(hz as int, at.shift as nat, at.index as int);
        lemma_grid_point(hz as int, at.shift as nat, at.index as int + 1);
    }
    24 * (TABLE_OCTAVE as i32 - at.shift as i32) + at.index as i32
}

/// The position of `hz` on the scale, in cents above A4.
pub fn cents_from_a4(hz: u32) -> (c: i32)
    requires
        hz > 0,
    ensures
        c == cents_above_a4(hz as int),
        -22_800 <= c <= 16_800,
{
    let at = locate(hz);
    let low: u64 = table_bound(at.index);
    let high: u64 = table_bound(at.index + 1);
    proof {
        lemma_bounds_increase(at.index as int);
    }
    let width: u64 = high - low;
    let part: u64 = (100 * (at.scaled - low) + width) / (2 * width);
    assert(part <= 50) by (nonlinear_arith)
        requires
            part == (100 * (at.scaled - low) + width) / (2 * width),
            0 <= at.scaled - low < width,
    ;
    1200 * (TABLE_OCTAVE as i32 - at.shift as i32) + 50 * (at.index as i32) + part as i32
}

/// The pitch of twice the frequency lies 1200 cents higher.
pub proof fn lemma_octave_is_1200_cents(hz: int)
    requires
        0 < hz,
        2 * hz < 0x1_0000_0000,
    ensures
        cents_above_a4(2 * hz) == cents_above_a4(hz) + 1200,
{
    let s = octave_shift(2 * hz);
    assert(octave_shift(hz) == s + 1);
    lemma_pow2_unfold(s + 1);
    assert(hz * pow2(s + 1) == (2 * hz) * pow2(s)) by (nonlinear_arith)
        requires
            pow2(s + 1) == 2 * pow2(s),
    ;
}

/// The position in cents lies within the quarter tone that holds the
/// frequency: between `50 * q` and `50 * (q + 1)`.
pub proof fn lemma_cents_within_quarter_tone(hz: int)
    requires
        0 < hz < 0x1_0000_0000,
    ensures
        50 * quarter_tones_above_a4(hz) <= cents_above_a4(hz) <= 50 * quarter_tones_above_a4(hz)
            + 50,
{
    let s = octave_shift(hz);
    let x = hz * pow2(s);
    lemma_shift_reaches_table(hz);
    let k = quarter_tone_index_from(x, 0);
    lemma_index_brackets(x, 0);
    lemma_located(hz, s, k);
    lemma_bounds_increase(k);
    let low = quarter_tone_bound(k);
    let width = quarter_tone_bound(k + 1) - low;
    let part = rounded_div(50 * (x - low), width);
    assert(0 <= part <= 50) by (nonlinear_arith)
        requires
            part == (2 * (50 * (x - low)) + width) / (2 * width),
            0 <= x - low < width,
    ;
}

/// Doubling `hz` as often as `octave_shift` says brings it into the octave of
/// the table.
proof fn lemma_shift_reaches_table(hz: int)
    requires
        0 < hz < 0x1_0000_0000,
    ensures
        TABLE_BASE <= hz * pow2(octave_shift(hz)) < 2 * TABLE_BASE,
    decreases
        (if hz < TABLE_BASE {
            TABLE_BASE - hz
        } else {
            0
        }),
{
    lemma2_to64();
    if hz < TABLE_BASE {
        let s = octave_shift(2 * hz);
        if 2 * hz < 0x1_0000_0000 {
            lemma_shift_reaches_table(2 * hz);
        } else {
            assert((2 * hz) * pow2(0) == 2 * hz) by (nonlinear_arith)
                requires
                    pow2(0) == 1,
            ;
        }
        lemma_pow2_unfold(s + 1);
        assert(hz * pow2(s + 1) == (2 * hz) * pow2(s)) by (nonlinear_arith)
            requires
                pow2(s + 1) == 2 * pow2(s),
        ;
    } else {
        assert(hz * pow2(0) == hz) by (nonlinear_arith)
            requires
                pow2(0) == 1,
        ;
    }
}

/// The search from `k` ends at the entry that brackets `x`.
proof fn lemma_index_brackets(x: int, k: int)
    requires
        0 <= k <= 23,
        quarter_tone_bound(k) <= x < 2 * TABLE_BASE,
    ensures
        k <= quarter_tone_index_from(x, k) <= 23,
        quarter_tone_bound(quarter_tone_index_from(x, k)) <= x < quarter_tone_bound(
            quarter_tone_index_from(x, k) + 1,
        ),
    decreases 24 - k,
{
    if k < 23 && quarter_tone_bound(k + 1) <= x {
        lemma_index_brackets(x, k + 1);
    }
}

/// A higher frequency needs no more doublings to reach the table.
proof fn lemma_shift_monotonic(low: int, high: int)
    requires
        0 < low <= high,
    ensures
        octave_shift(low) >= octave_shift(high),
    decreases
        (if low < TABLE_BASE {
            TABLE_BASE - low
        } else {
            0
        }),
{
    if high < TABLE_BASE {
        lemma_shift_monotonic(2 * low, 2 * high);
    }
}

/// A higher frequency of the table's octave lies at no lower an entry.
proof fn lemma_index_monotonic(low: int, high: int, k: int)
    requires
        low <= high,
        0 <= k <= 23,
    ensures
        quarter_tone_index_from(low, k) <= quarter_tone_index_from(high, k),
    decreases 24 - k,
{
    if k < 23 && quarter_tone_bound(k + 1) <= low {
        lemma_index_monotonic(low, high, k + 1);
    } else if k < 23 && quarter_tone_bound(k + 1) <= high {
        lemma_index_from_at_least(high, k + 1);
    }
}

/// The search from `k` ends at `k` or above.
proof fn lemma_index_from_at_least(x: int, k: int)
    requires
        0 <= k <= 23,
    ensures
        k <= quarter_tone_index_from(x, k) <= 23,
    decreases 24 - k,
{
    if k < 23 && quarter_tone_bound(k + 1) <= x {
        lemma_index_from_at_least(x, k + 1);
    }
}

/// The position on the scale rises with the frequency.
pub proof fn lemma_cents_monotonic(low: int, high: int)
    requires
        0 < low <= high < 0x1_0000_0000,
    ensures
        cents_above_a4(low) <= cents_above_a4(high),
{
    let s1 = octave_shift(low);
    let s2 = octave_shift(high);
    let x1 = low * pow2(s1);
    let x2 = high * pow2(s2);
    let k1 = quarter_tone_index_from(x1, 0);
    let k2 = quarter_tone_index_from(x2, 0);
    lemma_shift_monotonic(low, high);
    lemma_shift_reaches_table(low);
    lemma_shift_reaches_table(high);
    lemma_index_brackets(x1, 0);
    lemma_index_brackets(x2, 0);
    lemma_bounds_increase(k1);
    lemma_bounds_increase(k2);
    let w1 = quarter_tone_bound(k1 + 1) - quarter_tone_bound(k1);
    let w2 = quarter_tone_bound(k2 + 1) - quarter_tone_bound(k2);
    let r1 = rounded_div(50 * (x1 - quarter_tone_bound(k1)), w1);
    let r2 = rounded_div(50 * (x2 - quarter_tone_bound(k2)), w2);
    assert(0 <= r1 <= 50) by (nonlinear_arith)
        requires
            r1 == (2 * (50 * (x1 - quarter_tone_bound(k1))) + w1) / (2 * w1),
            0 <= x1 - quarter_tone_bound(k1) < w1,
    ;
    assert(0 <= r2 <= 50) by (nonlinear_arith)
        requires
            r2 == (2 * (50 * (x2 - quarter_tone_bound(k2))) + w2) / (2 * w2),
            0 <= x2 - quarter_tone_bound(k2) < w2,
    ;
    if s1 == s2 {
        assert(x1 <= x2) by (nonlinear_arith)
            requires
                x1 == low * pow2(s1),
                x2 == high * pow2(s1),
                low <= high,
        ;
        lemma_index_monotonic(x1, x2, 0);
        if k1 == k2 {
            let d1 = x1 - quarter_tone_bound(k1);
            let d2 = x2 - quarter_tone_bound(k1);
            assert((2 * (50 * d1) + w1) / (2 * w1) <= (2 * (50 * d2) + w1) / (2 * w1))
                by (nonlinear_arith)
                requires
                    d1 <= d2,
                    w1 > 0,
            ;
        }
    }
}

} // verus!
