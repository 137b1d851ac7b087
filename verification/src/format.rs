//! Sizes and times as people read them.
use crate::text::{decimal, digit, digit_str, owned, push_decimal};
use vstd::prelude::*;
use vstd::string::StringExecFns;

verus! {

/// The distance from a 64-bit float that is at least `n` to the next one, for whole
/// numbers `n`: one below `2^53`, and twice as much for every power of two above.
pub open spec fn float_spacing(n: nat) -> nat
    decreases n,
{
    if n < 9007199254740992 {
        1
    } else {
        2 * float_spacing(n / 2)
    }
}

/// The whole number that is nearest to `n / d`, and the even one of two.
pub open spec fn round_half_even(n: nat, d: nat) -> nat {
    let below = n / d;
    let left = n % d;
    if 2 * left < d || (2 * left == d && below % 2 == 0) {
        below
    } else {
        below + 1
    }
}

/// The 64-bit float that is nearest to a whole number.
pub open spec fn nearest_float(n: nat) -> nat {
    round_half_even(n, float_spacing(n)) * float_spacing(n)
}

/// The power of two that brings `n / d` up to `2^52` or above: one, unless `n / d` is
/// smaller.
pub open spec fn quotient_scale(n: nat, d: nat) -> nat
    decreases
            if n < 4503599627370496 * d {
                4503599627370496 * d - n
            } else {
                0
            },
{
    if n == 0 || n >= 4503599627370496 * d {
        1
    } else {
        2 * quotient_scale(2 * n, d)
    }
}

/// The distance from one 64-bit float to the next near `n / d`: one, unless `n / d` is
/// `2^53` or above.
pub open spec fn quotient_spacing(n: nat, d: nat) -> nat
    decreases
            if n > 9007199254740992 * d {
                n - 9007199254740992 * d
            } else {
                0
            },
{
    if d == 0 || n < 9007199254740992 * d {
        1
    } else if n == 9007199254740992 * d {
        2
    } else {
        2 * quotient_spacing(n, 2 * d)
    }
}

/// The thousandths of the quotient of two 64-bit floats, for whole numbers `n` and `d`
/// that are the floats. The quotient is rounded to a float of 53 bits, and then to
/// thousandths.
pub open spec fn quotient_thousandths(n: nat, d: nat) -> nat {
    let scale = quotient_scale(n, d);
    let spacing = quotient_spacing(n, d);
    let significand = round_half_even(n * scale, d * spacing);
    round_half_even(significand * spacing * 1000, scale)
}

/// A number of units of `unit` each, with three digits behind the point.
pub open spec fn fixed_point(n: nat, unit: nat) -> Seq<char> {
    let thousandths = quotient_thousandths(nearest_float(n), unit);
    decimal(thousandths / 1000) + seq![
        '.',
        digit(thousandths / 100 % 10),
        digit(thousandths / 10 % 10),
        digit(thousandths % 10),
    ]
}

/// A size as a text: in GB, MB or KB with three digits behind the point, or in bytes.
pub open spec fn size_text(bytes: nat) -> Seq<char> {
    if bytes >= 1073741824 {
        fixed_point(bytes, 1073741824) + " GB"@
    } else if bytes >= 1048576 {
        fixed_point(bytes, 1048576) + " MB"@
    } else if bytes >= 1024 {
        fixed_point(bytes, 1024) + " KB"@
    } else {
        decimal(bytes) + " B"@
    }
}

/// A time as a text: in seconds, milliseconds or microseconds with three digits behind
/// the point, or in nanoseconds.
pub open spec fn time_text(ns: nat) -> Seq<char> {
    if ns >= 1000000000 {
        fixed_point(ns, 1000000000) + " s"@
    } else if ns >= 1000000 {
        fixed_point(ns, 1000000) + " ms"@
    } else if ns >= 1000 {
        fixed_point(ns, 1000) + " us"@
    } else {
        decimal(ns) + " ns"@
    }
}

/// A size as a text.
pub fn fmt_bytes(bytes: usize) -> (text: String)
    ensures
        text@ == size_text(bytes as nat),
{
    if bytes >= 1073741824 {
        with_unit(bytes as u128, 1073741824, " GB")
    } else if bytes >= 1048576 {
        with_unit(bytes as u128, 1048576, " MB")
    } else if bytes >= 1024 {
        with_unit(bytes as u128, 1024, " KB")
    } else {
        whole(bytes as u128, " B")
    }
}

/// A time in nanoseconds as a text.
pub fn fmt_ns(ns: u128) -> (text: String)
    ensures
        text@ == time_text(ns as nat),
{
    if ns >= 1000000000 {
        with_unit(ns, 1000000000, " s")
    } else if ns >= 1000000 {
        with_unit(ns, 1000000, " ms")
    } else if ns >= 1000 {
        with_unit(ns, 1000, " us")
    } else {
        whole(ns, " ns")
    }
}

/// A whole number and its unit.
fn whole(n: u128, suffix: &str) -> (text: String)
    ensures
        text@ == decimal(n as nat) + suffix@,
{
    let mut text = owned("");
    push_decimal(&mut text, n);
    text.append(suffix);
    proof {
        reveal_strlit("");
        assert(""@ + decimal(n as nat) =~= decimal(n as nat));
    }
    text
}

/// A number of units of `unit` each, and the name of the unit.
fn with_unit(n: u128, unit: u128, suffix: &str) -> (text: String)
    requires
        1000 <= unit <= 1073741824,
        unit % 2 == 0,
        unit <= n <= unit * 0x6_0000_0000_0000_0000_0000_0000,
    ensures
        text@ == fixed_point(n as nat, unit as nat) + suffix@,
{
    let mut text = fixed_point_text(n, unit);
    text.append(suffix);
    text
}

/// The distance from one 64-bit float to the next, near `n`.
fn spacing(n: u128) -> (spacing: u128)
    ensures
        spacing == float_spacing(n as nat),
        spacing >= 1,
        spacing * 4503599627370496 <= n || spacing == 1,
        n < 9007199254740992 ==> spacing == 1,
        n >= 9007199254740992 ==> spacing % 2 == 0,
{
    let mut rest = n;
    let mut spacing: u128 = 1;
    while rest >= 9007199254740992
        invariant
            float_spacing(n as nat) == spacing * float_spacing(rest as nat),
            spacing >= 1,
            spacing * rest <= n,
            spacing == 1 <==> rest == n,
            spacing == 1 || spacing % 2 == 0,
            spacing == 1 || rest >= 4503599627370496,
        decreases rest,
    {
        assert(spacing * rest >= spacing * 9007199254740992) by (nonlinear_arith)
            requires
                rest >= 9007199254740992,
                spacing >= 1,
        ;
        assert(float_spacing(rest as nat) == 2 * float_spacing((rest / 2) as nat));
        let half = rest / 2;
        assert((2 * spacing) * half <= spacing * rest) by (nonlinear_arith)
            requires
                2 * half <= rest,
                spacing >= 1,
        ;
        assert(spacing * (2 * float_spacing(half as nat)) == (2 * spacing) * float_spacing(
            half as nat,
        )) by (nonlinear_arith);
        assert(half < n) by (nonlinear_arith)
            requires
                2 * half <= rest,
                rest > 0,
                spacing >= 1,
                spacing * rest <= n,
        ;
        rest = half;
        spacing = 2 * spacing;
    }
    assert(spacing * float_spacing(rest as nat) == spacing) by (nonlinear_arith)
        requires
            float_spacing(rest as nat) == 1,
    ;
    assert(spacing == 1 || spacing * 4503599627370496 <= spacing * rest) by (nonlinear_arith)
        requires
            spacing == 1 || rest >= 4503599627370496,
            spacing >= 1,
    ;
    spacing
}

/// The whole number that is nearest to `n / d`, and the even one of two.
fn nearest(n: u128, d: u128) -> (q: u128)
    requires
        0 < d <= 0x4000_0000_0000_0000_0000_0000_0000_0000,
        n < u128::MAX || d > 1,
    ensures
        q == round_half_even(n as nat, d as nat),
        n / d <= q <= n / d + 1,
        d == 1 ==> q == n,
{
    let below = n / d;
    let left = n % d;
    if 2 * left < d || (2 * left == d && below % 2 == 0) {
        below
    } else {
        assert(below < u128::MAX) by (nonlinear_arith)
            requires
                below == n / d,
                d > 1,
                n <= u128::MAX,
        ;
        below + 1
    }
}

/// Half of numerator and half of denominator are rounded as the whole are.
proof fn lemma_round_halves(n: nat, d: nat)
    requires
        d > 0,
    ensures
        round_half_even(2 * n, 2 * d) == round_half_even(n, d),
{
    let q = n / d;
    let r = n % d;
    assert(n == d * q + r && 0 <= r < d) by (nonlinear_arith)
        requires
            d > 0,
            q == n / d,
            r == n % d,
    ;
    assert(2 * n == q * (2 * d) + 2 * r) by (nonlinear_arith)
        requires
            n == d * q + r,
    ;
    vstd::arithmetic::div_mod::lemma_fundamental_div_mod_converse(
        2 * n as int,
        2 * d as int,
        q as int,
        2 * r as int,
    );
}

proof fn lemma_scale_halves(n: nat, d: nat)
    ensures
        quotient_scale(2 * n, 2 * d) == quotient_scale(n, d),
    decreases
            if n < 4503599627370496 * d {
                4503599627370496 * d - n
            } else {
                0
            },
{
    if n != 0 && n < 4503599627370496 * d {
        lemma_scale_halves(2 * n, d);
    }
}

proof fn lemma_spacing_halves(n: nat, d: nat)
    requires
        d > 0,
    ensures
        quotient_spacing(2 * n, 2 * d) == quotient_spacing(n, d),
    decreases
            if n > 9007199254740992 * d {
                n - 9007199254740992 * d
            } else {
                0
            },
{
    if n > 9007199254740992 * d {
        lemma_spacing_halves(n, 2 * d);
    }
}

/// A quotient does not change if both numbers are halved.
proof fn lemma_quotient_halves(n: nat, d: nat)
    requires
        d > 0,
    ensures
        quotient_thousandths(2 * n, 2 * d) == quotient_thousandths(n, d),
{
    lemma_scale_halves(n, d);
    lemma_spacing_halves(n, d);
    let scale = quotient_scale(n, d);
    let spacing = quotient_spacing(n, d);
    lemma_spacing_positive(n, d);
    assert((2 * n) * scale == 2 * (n * scale)) by (nonlinear_arith);
    assert((2 * d) * spacing == 2 * (d * spacing)) by (nonlinear_arith);
    assert(d * spacing > 0) by (nonlinear_arith)
        requires
            d > 0,
            spacing > 0,
    ;
    lemma_round_halves(n * scale, d * spacing);
}

proof fn lemma_spacing_positive(n: nat, d: nat)
    ensures
        quotient_spacing(n, d) > 0,
    decreases
            if n > 9007199254740992 * d {
                n - 9007199254740992 * d
            } else {
                0
            },
{
    if d > 0 && n > 9007199254740992 * d {
        lemma_spacing_positive(n, 2 * d);
    }
}

/// The power of two that brings `n / d` up, and `n` as often.
fn scale_up(n: u128, d: u128) -> (scale: u128)
    requires
        0 < d <= 1073741824,
        d <= n,
    ensures
        scale == quotient_scale(n as nat, d as nat),
        1 <= scale <= 9007199254740992,
        n * scale <= u128::MAX,
        scale > 1 ==> n * scale < 9007199254740992 * d,
{
    let mut scaled = n;
    let mut scale: u128 = 1;
    while scaled < 4503599627370496 * d
        invariant
            0 < d <= 1073741824,
            0 < n,
            scaled == n * scale,
            1 <= scale <= 9007199254740992,
            scale * d <= scaled,
            scale > 1 ==> scaled < 9007199254740992 * d,
            quotient_scale(n as nat, d as nat) == scale * quotient_scale(
                scaled as nat,
                d as nat,
            ),
        decreases 9007199254740992 * d - scaled,
    {
        assert(scale < 4503599627370496) by (nonlinear_arith)
            requires
                scale * d < 4503599627370496 * d,
                d > 0,
        ;
        assert(scaled > 0) by (nonlinear_arith)
            requires
                scaled == n * scale,
                n > 0,
                scale >= 1,
        ;
        assert(2 * scaled == n * (2 * scale)) by (nonlinear_arith)
            requires
                scaled == n * scale,
        ;
        assert((2 * scale) * d == 2 * (scale * d)) by (nonlinear_arith);
        assert(scale * (2 * quotient_scale(2 * scaled as nat, d as nat)) == (2 * scale)
            * quotient_scale(2 * scaled as nat, d as nat)) by (nonlinear_arith);
        scaled = 2 * scaled;
        scale = 2 * scale;
    }
    assert(scale * quotient_scale(scaled as nat, d as nat) == scale) by (nonlinear_arith)
        requires
            quotient_scale(scaled as nat, d as nat) == 1,
    ;
    scale
}

/// The distance from one float to the next near `n / d`.
fn space_out(n: u128, d: u128) -> (spacing: u128)
    requires
        500 <= d <= 1073741824,
        n <= 0x8001_0000_0000_0000_0000_0000_0000_0000,
    ensures
        spacing == quotient_spacing(n as nat, d as nat),
        spacing >= 1,
        spacing > 1 ==> 4503599627370496 * (d * spacing) <= n,
        n < 9007199254740992 * (d * spacing),
{
    let most = n / 9007199254740992;
    let mut step = d;
    let mut spacing: u128 = 1;
    while most >= step
        invariant
            500 <= d <= 1073741824,
            most == n / 9007199254740992,
            n <= 0x8001_0000_0000_0000_0000_0000_0000_0000,
            step == d * spacing,
            step >= d,
            spacing >= 1,
            spacing <= step,
            spacing > 1 ==> 4503599627370496 * step <= n,
            quotient_spacing(n as nat, d as nat) == spacing * quotient_spacing(
                n as nat,
                step as nat,
            ),
        decreases n - 4503599627370496 * step + 1,
    {
        assert(9007199254740992 * step <= n);
        proof {
            if n == 9007199254740992 * step {
                assert(quotient_spacing(n as nat, 2 * step as nat) == 1);
            }
        }
        assert(2 * step == d * (2 * spacing)) by (nonlinear_arith)
            requires
                step == d * spacing,
        ;
        assert(spacing * (2 * quotient_spacing(n as nat, 2 * step as nat)) == (2 * spacing)
            * quotient_spacing(n as nat, 2 * step as nat)) by (nonlinear_arith);
        step = 2 * step;
        spacing = 2 * spacing;
    }
    assert(spacing * quotient_spacing(n as nat, step as nat) == spacing) by (nonlinear_arith)
        requires
            quotient_spacing(n as nat, step as nat) == 1,
    ;
    spacing
}

/// The thousandths of a quotient of floats.
fn thousandths(n: u128, d: u128) -> (thousandths: u128)
    requires
        500 <= d <= 1073741824,
        d <= n <= 0x8001_0000_0000_0000_0000_0000_0000_0000,
        n <= d * 0x8_0000_0000_0000_0000_0000_0000,
    ensures
        thousandths == quotient_thousandths(n as nat, d as nat),
{
    let scale = scale_up(n, d);
    let spacing = space_out(n, d);
    let scaled = n * scale;
    proof {
        lemma_one_is_one(n as int, d as int, scale as int, spacing as int);
    }
    let step = d * spacing;
    let significand = nearest(scaled, step);
    proof {
        lemma_significand_fits(
            scaled as int,
            d as int,
            step as int,
            spacing as int,
            significand as int,
            scale as int,
        );
    }
    nearest(significand * spacing * 1000, scale)
}

/// Of the scale and the spacing of a quotient one is one, and the quotient is below
/// `2^53` steps.
proof fn lemma_one_is_one(n: int, d: int, scale: int, spacing: int)
    requires
        500 <= d <= 1073741824,
        d <= n <= 0x8001_0000_0000_0000_0000_0000_0000_0000,
        1 <= scale,
        1 <= spacing,
        scale > 1 ==> n * scale < 9007199254740992 * d,
        spacing > 1 ==> 4503599627370496 * (d * spacing) <= n,
        n < 9007199254740992 * (d * spacing),
    ensures
        scale == 1 || spacing == 1,
        spacing == 1 ==> d * spacing == d,
        scale == 1 ==> n * scale == n,
        500 <= d * spacing <= 0x4000_0000_0000_0000_0000_0000_0000_0000,
        n * scale < 9007199254740992 * (d * spacing),
{
    if scale > 1 && spacing > 1 {
        assert(d * spacing >= 2 * d) by (nonlinear_arith)
            requires
                spacing >= 2,
                d > 0,
        ;
        assert(n * scale >= 2 * n) by (nonlinear_arith)
            requires
                scale >= 2,
                n > 0,
        ;
    }
    if spacing == 1 {
        assert(d * spacing == d) by (nonlinear_arith)
            requires
                spacing == 1,
        ;
    }
    if scale == 1 {
        assert(n * scale == n) by (nonlinear_arith)
            requires
                scale == 1,
        ;
    }
    assert(d * spacing >= d) by (nonlinear_arith)
        requires
            d > 0,
            spacing >= 1,
    ;
}

/// The significand of a quotient has 53 bits, and the thousandths fit into 128.
proof fn lemma_significand_fits(
    scaled: int,
    d: int,
    step: int,
    spacing: int,
    significand: int,
    scale: int,
)
    requires
        500 <= d,
        1 <= spacing,
        step == d * spacing,
        0 <= scaled < 9007199254740992 * step,
        0 <= significand <= scaled / step + 1,
        scale == 1 || spacing == 1,
        scale == 1 ==> scaled <= d * 0x8_0000_0000_0000_0000_0000_0000,
        spacing > 1 ==> 4503599627370496 * step <= 0x8001_0000_0000_0000_0000_0000_0000_0000,
    ensures
        0 <= significand * spacing,
        significand * spacing * 1000 < u128::MAX,
{
    let q = scaled / step;
    assert(step >= 500 * spacing) by (nonlinear_arith)
        requires
            step == d * spacing,
            d >= 500,
            spacing >= 1,
    ;
    assert(q * step <= scaled && 0 <= q < 9007199254740992) by (nonlinear_arith)
        requires
            q == scaled / step,
            0 <= scaled < 9007199254740992 * step,
            step > 0,
    ;
    assert(0 <= significand * spacing <= q * spacing + spacing) by (nonlinear_arith)
        requires
            0 <= significand <= q + 1,
            spacing >= 1,
    ;
    if spacing == 1 {
        assert(q * spacing == q) by (nonlinear_arith)
            requires
                spacing == 1,
        ;
    } else {
        assert((q * spacing) * d == q * step) by (nonlinear_arith)
            requires
                step == d * spacing,
        ;
        let qs = q * spacing;
        assert(qs <= 0x8_0000_0000_0000_0000_0000_0000) by (nonlinear_arith)
            requires
                qs * d <= d * 0x8_0000_0000_0000_0000_0000_0000,
                d > 0,
        ;
    }
}

/// The half of the float that is nearest to a number of more than 53 bits. The float
/// itself can be one more than the largest number of 128 bits.
fn half_float(n: u128, spacing: u128) -> (half: u128)
    requires
        n >= 9007199254740992,
        spacing == float_spacing(n as nat),
        spacing % 2 == 0,
        2 <= spacing,
        spacing * 4503599627370496 <= n,
    ensures
        2 * half == nearest_float(n as nat),
        4503599627370496 <= 2 * half <= n + n / 4503599627370496,
{
    let steps = nearest(n, spacing);
    let half_spacing = spacing / 2;
    let ghost q = n as int / spacing as int;
    assert(q * spacing <= n < q * spacing + spacing) by (nonlinear_arith)
        requires
            spacing > 0,
            q == n as int / spacing as int,
            n >= 0,
    ;
    assert(q * spacing <= steps * spacing <= (q + 1) * spacing) by (nonlinear_arith)
        requires
            q <= steps <= q + 1,
            spacing > 0,
    ;
    assert((q + 1) * spacing == q * spacing + spacing) by (nonlinear_arith);
    assert(2 * (steps * half_spacing) == steps * spacing) by (nonlinear_arith)
        requires
            2 * half_spacing == spacing,
    ;
    steps * half_spacing
}

/// A number of units of `unit` each, with three digits behind the point.
fn fixed_point_text(n: u128, unit: u128) -> (text: String)
    requires
        1000 <= unit <= 1073741824,
        unit % 2 == 0,
        unit <= n <= unit * 0x6_0000_0000_0000_0000_0000_0000,
    ensures
        text@ == fixed_point(n as nat, unit as nat),
{
    let spacing = spacing(n);
    let thousandths = if spacing == 1 {
        assert(round_half_even(n as nat, 1) == n);
        assert(n * float_spacing(n as nat) == n) by (nonlinear_arith)
            requires
                float_spacing(n as nat) == 1,
        ;
        thousandths(n, unit)
    } else {
        let half = half_float(n, spacing);
        proof {
            lemma_quotient_halves(half as nat, (unit / 2) as nat);
        }
        thousandths(half, unit / 2)
    };
    let mut text = owned("");
    push_decimal(&mut text, thousandths / 1000);
    text.append(".");
    text.append(digit_str((thousandths / 100 % 10) as u8));
    text.append(digit_str((thousandths / 10 % 10) as u8));
    text.append(digit_str((thousandths % 10) as u8));
    proof {
        reveal_strlit("");
        reveal_strlit(".");
        assert(text@ =~= fixed_point(n as nat, unit as nat));
    }
    text
}

} // verus!
