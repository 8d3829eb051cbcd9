//! Decimal rendering of numbers into strings.

use vstd::prelude::*;

verus! {

/// The character that writes the decimal digit `d`.
pub open spec fn digit_char(d: int) -> char {
    if d == 0 {
        '0'
    } else if d == 1 {
        '1'
    } else if d == 2 {
        '2'
    } else if d == 3 {
        '3'
    } else if d == 4 {
        '4'
    } else if d == 5 {
        '5'
    } else if d == 6 {
        '6'
    } else if d == 7 {
        '7'
    } else if d == 8 {
        '8'
    } else {
        '9'
    }
}

/// The decimal numeral of `n`, without leading zeros.
pub open spec fn decimal(n: nat) -> Seq<char>
    decreases n,
{
    if n < 10 {
        seq![digit_char(n as int)]
    } else {
        decimal(n / 10).push(digit_char((n % 10) as int))
    }
}

/// Ten to the power `e`.
pub open spec fn pow10(e: nat) -> nat
    decreases e,
{
    if e == 0 {
        1
    } else {
        10 * pow10((e - 1) as nat)
    }
}

/// The last `width` decimal digits of `n`, with leading zeros.
pub open spec fn padded_decimal(n: nat, width: nat) -> Seq<char>
    decreases width,
{
    if width == 0 {
        Seq::empty()
    } else {
        padded_decimal(n / 10, (width - 1) as nat).push(digit_char((n % 10) as int))
    }
}

/// A value counted in units of `10^-scale`, counted instead in units of
/// `10^-decimals` and rounded to the nearest, a half upwards.
pub open spec fn rounded_to(value: nat, scale: nat, decimals: nat) -> nat {
    if decimals >= scale {
        value * pow10((decimals - scale) as nat)
    } else {
        (value + pow10((scale - decimals) as nat) / 2) / pow10((scale - decimals) as nat)
    }
}

/// The number `value / 10^scale` written with `decimals` decimals, the last
/// rounded to the nearest and a half upwards: `fixed_label(1234, 3, 2)` is
/// `1.23` and `fixed_label(500, 3, 2)` is `0.50`. Without decimals no point
/// is written.
pub open spec fn fixed_label(value: nat, scale: nat, decimals: nat) -> Seq<char> {
    let shown = rounded_to(value, scale, decimals);
    if decimals == 0 {
        decimal(shown)
    } else {
        decimal(shown / pow10(decimals)).push('.') + padded_decimal(
            shown % pow10(decimals),
            decimals,
        )
    }
}

/// As `fixed_label`, with a minus sign before the number where `value` is
/// negative.
pub open spec fn signed_fixed_label(value: int, scale: nat, decimals: nat) -> Seq<char> {
    if value < 0 {
        seq!['-'] + fixed_label((-value) as nat, scale, decimals)
    } else {
        fixed_label(value as nat, scale, decimals)
    }
}

/// A time of `ms` milliseconds written in seconds with two decimals: `1234`
/// is `1.23`, `500` is `0.50`.
pub open spec fn seconds_label(ms: u32) -> Seq<char> {
    fixed_label(ms as nat, 3, 2)
}

fn digit_str(d: u64) -> (s: &'static str)
    requires
        d < 10,
    ensures
        s@ == seq![digit_char(d as int)],
{
    proof {
        reveal_strlit("0");
        reveal_strlit("1");
        reveal_strlit("2");
        reveal_strlit("3");
        reveal_strlit("4");
        reveal_strlit("5");
        reveal_strlit("6");
        reveal_strlit("7");
        reveal_strlit("8");
        reveal_strlit("9");
    }
    let s: &'static str = if d == 0 {
        "0"
    } else if d == 1 {
        "1"
    } else if d == 2 {
        "2"
    } else if d == 3 {
        "3"
    } else if d == 4 {
        "4"
    } else if d == 5 {
        "5"
    } else if d == 6 {
        "6"
    } else if d == 7 {
        "7"
    } else if d == 8 {
        "8"
    } else {
        "9"
    };
    assert(s@ =~= seq![digit_char(d as int)]);
    s
}

/// Appends the decimal numeral of `n` to `out`.
pub fn append_decimal(out: &mut String, n: u64)
    ensures
        final(out)@ == old(out)@ + decimal(n as nat),
{
    append_wide_decimal(out, n as u128);
}

/// Ten to the power `e`.
fn power_of_ten(e: u32) -> (p: u64)
    requires
        e <= 9,
    ensures
        p == pow10(e as nat),
        1 <= p <= 1_000_000_000,
{
    proof {
        reveal_with_fuel(pow10, 10);
    }
    if e == 0 {
        1
    } else if e == 1 {
        10
    } else if e == 2 {
        100
    } else if e == 3 {
        1_000
    } else if e == 4 {
        10_000
    } else if e == 5 {
        100_000
    } else if e == 6 {
        1_000_000
    } else if e == 7 {
        10_000_000
    } else if e == 8 {
        100_000_000
    } else {
        1_000_000_000
    }
}

/// Appends the last `width` decimal digits of `n` to `out`.
fn append_padded(out: &mut String, n: u128, width: u32)
    ensures
        final(out)@ == old(out)@ + padded_decimal(n as nat, width as nat),
    decreases width,
{
    if width > 0 {
        append_padded(out, n / 10, width - 1);
        out.append(digit_str((n % 10) as u64));
    }
    assert(final(out)@ =~= old(out)@ + padded_decimal(n as nat, width as nat));
}

/// Appends the decimal numeral of `n` to `out`.
fn append_wide_decimal(out: &mut String, n: u128)
    ensures
        final(out)@ == old(out)@ + decimal(n as nat),
    decreases n,
{
    if n >= 10 {
        append_wide_decimal(out, n / 10);
    }
    out.append(digit_str((n % 10) as u64));
    assert(final(out)@ =~= old(out)@ + decimal(n as nat));
}

/// Appends `value / 10^scale`, written with `decimals` decimals, to `out`.
///
/// `scale` and `decimals` are nine at the most: that is as far as the powers
/// of ten of this module go, not a limit of the notation.
pub fn append_fixed(out: &mut String, value: u64, scale: u32, decimals: u32)
    requires
        scale <= 9,
        decimals <= 9,
    ensures
        final(out)@ == old(out)@ + fixed_label(value as nat, scale as nat, decimals as nat),
{
    let shown: u128 = if decimals >= scale {
        let factor: u64 = power_of_ten(decimals - scale);
        assert(value * factor <= u64::MAX * 1_000_000_000) by (nonlinear_arith)
            requires
                value <= u64::MAX,
                factor <= 1_000_000_000,
        ;
        (value as u128) * (factor as u128)
    } else {
        let divisor: u64 = power_of_ten(scale - decimals);
        (value as u128 + (divisor / 2) as u128) / (divisor as u128)
    };
    if decimals == 0 {
        append_wide_decimal(out, shown);
    } else {
        let unit: u64 = power_of_ten(decimals);
        append_wide_decimal(out, shown / (unit as u128));
        proof {
            reveal_strlit(".");
        }
        out.append(".");
        append_padded(out, shown % (unit as u128), decimals);
    }
    assert(final(out)@ =~= old(out)@ + fixed_label(value as nat, scale as nat, decimals as nat));
}

/// Appends `value / 10^scale`, written with its sign and `decimals`
/// decimals, to `out`. `scale` and `decimals` are nine at the most, as for
/// `append_fixed`.
pub fn append_signed_fixed(out: &mut String, value: i64, scale: u32, decimals: u32)
    requires
        scale <= 9,
        decimals <= 9,
    ensures
        final(out)@ == old(out)@ + signed_fixed_label(value as int, scale as nat, decimals as nat),
{
    if value < 0 {
        proof {
            reveal_strlit("-");
        }
        out.append("-");
        let magnitude: u64 = if value == i64::MIN {
            0x8000_0000_0000_0000
        } else {
            (-value) as u64
        };
        append_fixed(out, magnitude, scale, decimals);
    } else {
        append_fixed(out, value as u64, scale, decimals);
    }
    assert(final(out)@ =~= old(out)@ + signed_fixed_label(
        value as int,
        scale as nat,
        decimals as nat,
    ));
}

/// The number `value / 10^scale` written with `decimals` decimals. `scale`
/// and `decimals` are nine at the most, as for `append_fixed`.
pub fn format_fixed(value: u64, scale: u32, decimals: u32) -> (label: String)
    requires
        scale <= 9,
        decimals <= 9,
    ensures
        label@ == fixed_label(value as nat, scale as nat, decimals as nat),
{
    let mut label = String::new();
    append_fixed(&mut label, value, scale, decimals);
    assert(label@ =~= fixed_label(value as nat, scale as nat, decimals as nat));
    label
}

/// The number `value / 10^scale` written with its sign and `decimals`
/// decimals. `scale` and `decimals` are nine at the most, as for
/// `append_fixed`.
pub fn format_signed_fixed(value: i64, scale: u32, decimals: u32) -> (label: String)
    requires
        scale <= 9,
        decimals <= 9,
    ensures
        label@ == signed_fixed_label(value as int, scale as nat, decimals as nat),
{
    let mut label = String::new();
    append_signed_fixed(&mut label, value, scale, decimals);
    assert(label@ =~= signed_fixed_label(value as int, scale as nat, decimals as nat));
    label
}

/// Appends a time of `ms` milliseconds, written in seconds with two
/// decimals, to `out`.
pub fn append_seconds(out: &mut String, ms: u32)
    ensures
        final(out)@ == old(out)@ + seconds_label(ms),
{
    append_fixed(out, ms as u64, 3, 2);
}

/// True of the ten characters that write a decimal digit.
pub open spec fn is_digit_char(c: char) -> bool {
    c == '0' || c == '1' || c == '2' || c == '3' || c == '4' || c == '5' || c == '6' || c == '7'
        || c == '8' || c == '9'
}

/// A decimal numeral is made of digits, one at the least.
pub proof fn lemma_decimal_is_digits(n: nat)
    ensures
        decimal(n).len() >= 1,
        forall|i: int| 0 <= i < decimal(n).len() ==> is_digit_char(#[trigger] decimal(n)[i]),
    decreases n,
{
    if n >= 10 {
        lemma_decimal_is_digits(n / 10);
    }
}

/// Different numbers have different decimal numerals.
pub proof fn lemma_decimal_injective(a: nat, b: nat)
    requires
        decimal(a) == decimal(b),
    ensures
        a == b,
    decreases a,
{
    lemma_decimal_is_digits(a / 10);
    lemma_decimal_is_digits(b / 10);
    if a >= 10 && b >= 10 {
        let da = digit_char((a % 10) as int);
        let db = digit_char((b % 10) as int);
        assert(decimal(a) == decimal(a / 10).push(da));
        assert(decimal(b) == decimal(b / 10).push(db));
        assert(decimal(a).last() == da);
        assert(decimal(b).last() == db);
        assert(decimal(a).drop_last() =~= decimal(a / 10));
        assert(decimal(b).drop_last() =~= decimal(b / 10));
        lemma_decimal_injective(a / 10, b / 10);
        assert(a % 10 == b % 10);
    } else if a < 10 && b < 10 {
        assert(decimal(a)[0] == digit_char(a as int));
        assert(decimal(b)[0] == digit_char(b as int));
    } else if a < 10 {
        assert(decimal(a).len() == 1);
        assert(decimal(b) == decimal(b / 10).push(digit_char((b % 10) as int)));
        assert(decimal(b).len() >= 2);
    } else {
        assert(decimal(b).len() == 1);
        assert(decimal(a) == decimal(a / 10).push(digit_char((a % 10) as int)));
        assert(decimal(a).len() >= 2);
    }
}

} // verus!
