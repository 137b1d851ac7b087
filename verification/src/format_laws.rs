//! What holds of every size and every time that is shown: it is the right one, up to rounding.
use crate::format::{
    fixed_point, float_spacing, fmt_bytes, fmt_ns, nearest_float, quotient_scale,
    quotient_spacing, quotient_thousandths, round_half_even,
};
use crate::text::{decimal, digit};
use crate::text_laws::{law_decimal_writes_the_number, value_of};
use vstd::arithmetic::power2::{
    lemma2_to64, lemma_pow2_adds, lemma_pow2_pos, lemma_pow2_strictly_increases, lemma_pow2_unfold,
    pow2,
};
use vstd::prelude::*;

verus! {

/// Whether a text is a number of thousandths with a point before its last three digits, and a
/// unit behind them.
pub open spec fn writes_thousandths(text: Seq<char>, thousandths: int, unit: Seq<char>) -> bool {
    let point = text.len() - unit.len() - 4;
    &&& point > 0
    &&& forall|i: int| 0 <= i < point ==> '0' <= #[trigger] text[i] <= '9'
    &&& value_of(text.take(point)) == thousandths / 1000
    &&& text[point] == '.'
    &&& '0' <= text[point + 1] <= '9'
    &&& '0' <= text[point + 2] <= '9'
    &&& '0' <= text[point + 3] <= '9'
    &&& value_of(text.subrange(point + 1, point + 4)) == thousandths % 1000
    &&& text.skip(point + 4) == unit
}

/// Whether a number of thousandths of a unit of `size` is `n`, rounded: it is off by no more
/// than a half, and by what a float of 53 bits cannot tell.
pub open spec fn is_rounded(thousandths: int, size: int, n: int) -> bool {
    let error = thousandths * size - 1000 * n;
    let slack = size * 4503599627370496 + 3000 * n;
    -slack <= 2 * error * 4503599627370496 <= slack
}

/// For a number that is not huge, nothing but the rounding to the nearest thousandth is left.
pub proof fn law_rounding_is_to_the_nearest(thousandths: int, size: int, n: int)
    requires
        is_rounded(thousandths, size, n),
        0 <= n < 1000000000000,
    ensures
        -size <= 2 * (thousandths * size - 1000 * n) <= size,
{
}

proof fn lemma_rounded(n: nat, d: nat)
    requires
        d > 0,
    ensures
        -d <= 2 * (round_half_even(n, d) * d - n) <= d,
        d == 1 ==> round_half_even(n, d) == n,
{
    let q = n / d;
    let r = n % d;
    assert(n == q * d + r && 0 <= r < d && (q + 1) * d == q * d + d) by (nonlinear_arith)
        requires
            d > 0,
            q == n / d,
            r == n % d,
    ;
}

proof fn lemma_spacing(n: nat)
    ensures
        float_spacing(n) >= 1,
        n < 9007199254740992 ==> float_spacing(n) == 1,
        n >= 9007199254740992 ==> float_spacing(n) * 4503599627370496 <= n,
    decreases n,
{
    if n >= 9007199254740992 {
        lemma_spacing(n / 2);
    }
}

proof fn lemma_float(n: nat)
    ensures
        -n <= 2 * (nearest_float(n) - n) * 4503599627370496 <= n,
{
    let spacing = float_spacing(n);
    lemma_spacing(n);
    lemma_rounded(n, spacing);
    if spacing == 1 {
        assert(n * spacing == n) by (nonlinear_arith)
            requires
                spacing == 1,
        ;
    } else {
        let error = round_half_even(n, spacing) * spacing - n;
        assert(-spacing <= 2 * error <= spacing);
    }
}

proof fn lemma_scale(n: nat, d: nat)
    requires
        n > 0,
        d > 0,
    ensures
        quotient_scale(n, d) >= 1,
        n * quotient_scale(n, d) >= 4503599627370496 * d,
        n >= 4503599627370496 * d ==> quotient_scale(n, d) == 1,
    decreases
            if n < 4503599627370496 * d {
                4503599627370496 * d - n
            } else {
                0
            },
{
    if n < 4503599627370496 * d {
        lemma_scale(2 * n, d);
        let half = quotient_scale(2 * n, d);
        assert(n * (2 * half) == (2 * n) * half) by (nonlinear_arith);
    } else {
        assert(n * 1 == n) by (nonlinear_arith);
    }
}

proof fn lemma_quotient_spacing(n: nat, d: nat)
    requires
        d > 0,
    ensures
        quotient_spacing(n, d) >= 1,
        quotient_spacing(n, d) > 1 ==> n >= 9007199254740992 * d && 4503599627370496 * (d
            * quotient_spacing(n, d)) <= n,
    decreases
            if n > 9007199254740992 * d {
                n - 9007199254740992 * d
            } else {
                0
            },
{
    if n > 9007199254740992 * d {
        lemma_quotient_spacing(n, 2 * d);
        let half = quotient_spacing(n, 2 * d);
        assert(d * (2 * half) == (2 * d) * half) by (nonlinear_arith);
        if half == 1 {
            assert((2 * d) * half == 2 * d) by (nonlinear_arith)
                requires
                    half == 1,
            ;
        }
    } else if n == 9007199254740992 * d {
        assert(d * 2 == 2 * d) by (nonlinear_arith);
    }
}

/// The quotient of two floats, in thousandths, is off by no more than a half and by what a
/// float cannot tell.
proof fn lemma_quotient(f: nat, d: nat)
    requires
        f > 0,
        d > 0,
    ensures
        ({
            let error = quotient_thousandths(f, d) * d - 1000 * f;
            let slack = d * 4503599627370496 + 1000 * f;
            -slack <= 2 * error * 4503599627370496 <= slack
        }),
{
    let s = quotient_scale(f, d);
    let p = quotient_spacing(f, d);
    lemma_scale(f, d);
    lemma_quotient_spacing(f, d);
    let step = d * p;
    assert(step > 0) by (nonlinear_arith)
        requires
            step == d * p,
            d > 0,
            p >= 1,
    ;
    let m = round_half_even(f * s, step);
    lemma_rounded(f * s, step);
    let t = quotient_thousandths(f, d);
    assert(m * p * 1000 == (m * p) * 1000);
    lemma_rounded(m * p * 1000, s);
    if p > 1 {
        assert(s == 1);
        assert(f * s == f) by (nonlinear_arith)
            requires
                s == 1,
        ;
        assert(t == m * p * 1000);
        assert(t * d == 1000 * (m * step)) by (nonlinear_arith)
            requires
                t == m * p * 1000,
                step == d * p,
        ;
        // twice the error of the significand is no more than a step
        let error = m * step - f;
        assert(-step <= 2 * error <= step);
        assert(t * d - 1000 * f == 1000 * error);
    } else {
        assert(p == 1);
        assert(step == d) by (nonlinear_arith)
            requires
                step == d * p,
                p == 1,
        ;
        assert(m * p == m) by (nonlinear_arith)
            requires
                p == 1,
        ;
        let first = m * d - f * s;
        let second = t * s - 1000 * m;
        assert(-d <= 2 * first <= d);
        assert(-s <= 2 * second <= s);
        let error = t * d - 1000 * f;
        lemma_two_roundings(f as int, d as int, s as int, m as int, t as int);
    }
}

proof fn lemma_two_roundings(f: int, d: int, s: int, m: int, t: int)
    requires
        f > 0,
        d > 0,
        s >= 1,
        f * s >= 4503599627370496 * d,
        -d <= 2 * (m * d - f * s) <= d,
        -s <= 2 * (t * s - 1000 * m) <= s,
    ensures
        ({
            let error = t * d - 1000 * f;
            let slack = d * 4503599627370496 + 1000 * f;
            -slack <= 2 * error * 4503599627370496 <= slack
        }),
{
    let error = t * d - 1000 * f;
    let first = m * d - f * s;
    let second = t * s - 1000 * m;
    assert(error * s == second * d + 1000 * first) by (nonlinear_arith)
        requires
            error == t * d - 1000 * f,
            first == m * d - f * s,
            second == t * s - 1000 * m,
    ;
    assert(-(s * d) <= 2 * second * d <= s * d) by (nonlinear_arith)
        requires
            -s <= 2 * second <= s,
            d > 0,
    ;
    assert(2 * error * s == 2 * second * d + 1000 * (2 * first)) by (nonlinear_arith)
        requires
            error * s == second * d + 1000 * first,
    ;
    let twice = 2 * error * s;
    assert(-(s * d) - 1000 * d <= twice <= s * d + 1000 * d);
    let big = 4503599627370496int;
    assert(twice * big == (2 * error * big) * s) by (nonlinear_arith)
        requires
            twice == 2 * error * s,
    ;
    assert((s * d) * big == (d * big) * s) by (nonlinear_arith);
    assert(1000 * (f * s) == (1000 * f) * s) by (nonlinear_arith);
    let scaled = 2 * error * big;
    let slack = d * big + 1000 * f;
    assert(slack * s == (d * big) * s + (1000 * f) * s) by (nonlinear_arith)
        requires
            slack == d * big + 1000 * f,
    ;
    assert(-(slack * s) <= scaled * s <= slack * s);
    assert(-slack <= scaled <= slack) by (nonlinear_arith)
        requires
            -(slack * s) <= scaled * s <= slack * s,
            s >= 1,
    ;
}

/// A number of units is shown rounded.
proof fn lemma_fixed_point(n: nat, size: nat, unit: Seq<char>) -> (thousandths: int)
    requires
        n >= size,
        size >= 1,
    ensures
        is_rounded(thousandths, size as int, n as int),
        writes_thousandths(fixed_point(n, size) + unit, thousandths, unit),
{
    let f = nearest_float(n);
    let t = quotient_thousandths(f, size);
    lemma_rounded_twice(n, size);
    lemma_point(t, unit);
    t as int
}

proof fn lemma_rounded_twice(n: nat, size: nat)
    requires
        n >= 1,
        size >= 1,
    ensures
        is_rounded(quotient_thousandths(nearest_float(n), size) as int, size as int, n as int),
{
    let f = nearest_float(n);
    lemma_float(n);
    assert(f > 0);
    lemma_quotient(f, size);
    let t = quotient_thousandths(f, size);
    lemma_errors_add_up((t * size) as int, f as int, n as int, size as int);
}

proof fn lemma_errors_add_up(product: int, f: int, n: int, size: int)
    requires
        n >= 1,
        -n <= 2 * (f - n) * 4503599627370496 <= n,
        -(size * 4503599627370496 + 1000 * f) <= 2 * (product - 1000 * f) * 4503599627370496
            <= size * 4503599627370496 + 1000 * f,
    ensures
        -(size * 4503599627370496 + 3000 * n) <= 2 * (product - 1000 * n) * 4503599627370496
            <= size * 4503599627370496 + 3000 * n,
{
}

/// Thousandths with a point, a whole part before it and three digits behind it.
proof fn lemma_point(t: nat, unit: Seq<char>)
    ensures
        writes_thousandths(
            decimal(t / 1000) + seq![
                '.',
                digit(t / 100 % 10),
                digit(t / 10 % 10),
                digit(t % 10),
            ] + unit,
            t as int,
            unit,
        ),
{
    let whole = decimal(t / 1000);
    let a = digit(t / 100 % 10);
    let b = digit(t / 10 % 10);
    let c = digit(t % 10);
    let text = whole + seq!['.', a, b, c] + unit;
    law_decimal_writes_the_number(t / 1000);
    let point = whole.len() as int;
    assert(text.take(point) =~= whole);
    assert forall|i: int| 0 <= i < point implies '0' <= #[trigger] text[i] <= '9' by {
        assert(text[i] == whole[i]);
    }
    assert(text.subrange(point + 1, point + 4) =~= seq![a, b, c]);
    lemma_three_digits(a, b, c);
    lemma_last_three(t);
    assert(text.skip(point + 4) =~= unit);
}

proof fn lemma_last_three(t: nat)
    ensures
        100 * (t / 100 % 10) + 10 * (t / 10 % 10) + t % 10 == t % 1000,
{
    let ten = t / 10;
    let hundred = t / 100;
    assert(hundred == ten / 10);
    assert(t / 1000 == hundred / 10);
    assert(t == 10 * ten + t % 10);
    assert(ten == 10 * hundred + ten % 10);
    assert(hundred == 10 * (hundred / 10) + hundred % 10);
}

proof fn lemma_three_digits(a: char, b: char, c: char)
    ensures
        value_of(seq![a, b, c]) == 100 * (a as int - '0' as int) + 10 * (b as int - '0' as int) + (
        c as int - '0' as int),
{
    let f = |value: int, c: char| 10 * value + (c as int - '0' as int);
    let three = seq![a, b, c];
    let two = seq![a, b];
    let one = seq![a];
    let none = Seq::<char>::empty();
    assert(three.drop_last() =~= two);
    assert(two.drop_last() =~= one);
    assert(one.drop_last() =~= none);
    assert(none.fold_left(0int, f) == 0);
    assert(one.fold_left(0int, f) == f(0, a));
    assert(two.fold_left(0int, f) == f(f(0, a), b));
    assert(three.fold_left(0int, f) == f(f(f(0, a), b), c));
}

/// A size is shown in the largest unit of bytes, KB, MB and GB, of 1024 each, that it has at
/// least one of: whole if it is in bytes, else rounded to thousandths.
pub proof fn law_size_is_shown(bytes: usize, text: String)
    requires
        call_ensures(fmt_bytes, (bytes,), text),
    ensures
        bytes < 1024 ==> text@ == decimal(bytes as nat) + " B"@,
        1024 <= bytes < 1024 * 1024 ==> exists|t: int|
            is_rounded(t, 1024, bytes as int) && #[trigger] writes_thousandths(text@, t, " KB"@),
        1024 * 1024 <= bytes < 1024 * 1024 * 1024 ==> exists|t: int|
            is_rounded(t, 1048576, bytes as int) && #[trigger] writes_thousandths(
                text@,
                t,
                " MB"@,
            ),
        1024 * 1024 * 1024 <= bytes ==> exists|t: int|
            is_rounded(t, 1073741824, bytes as int) && #[trigger] writes_thousandths(
                text@,
                t,
                " GB"@,
            ),
{
    if bytes >= 1073741824 {
        let t = lemma_fixed_point(bytes as nat, 1073741824, " GB"@);
        assert(is_rounded(t, 1073741824, bytes as int) && writes_thousandths(text@, t, " GB"@));
    } else if bytes >= 1048576 {
        let t = lemma_fixed_point(bytes as nat, 1048576, " MB"@);
        assert(is_rounded(t, 1048576, bytes as int) && writes_thousandths(text@, t, " MB"@));
    } else if bytes >= 1024 {
        let t = lemma_fixed_point(bytes as nat, 1024, " KB"@);
        assert(is_rounded(t, 1024, bytes as int) && writes_thousandths(text@, t, " KB"@));
    }
}

/// A time is shown in the largest unit of nanoseconds, microseconds, milliseconds and seconds
/// that it has at least one of: whole if it is in nanoseconds, else rounded to thousandths.
pub proof fn law_time_is_shown(ns: u128, text: String)
    requires
        call_ensures(fmt_ns, (ns,), text),
    ensures
        ns < 1000 ==> text@ == decimal(ns as nat) + " ns"@,
        1000 <= ns < 1000000 ==> exists|t: int|
            is_rounded(t, 1000, ns as int) && #[trigger] writes_thousandths(text@, t, " us"@),
        1000000 <= ns < 1000000000 ==> exists|t: int|
            is_rounded(t, 1000000, ns as int) && #[trigger] writes_thousandths(text@, t, " ms"@),
        1000000000 <= ns ==> exists|t: int|
            is_rounded(t, 1000000000, ns as int) && #[trigger] writes_thousandths(
                text@,
                t,
                " s"@,
            ),
{
    if ns >= 1000000000 {
        let t = lemma_fixed_point(ns as nat, 1000000000, " s"@);
        assert(is_rounded(t, 1000000000, ns as int) && writes_thousandths(text@, t, " s"@));
    } else if ns >= 1000000 {
        let t = lemma_fixed_point(ns as nat, 1000000, " ms"@);
        assert(is_rounded(t, 1000000, ns as int) && writes_thousandths(text@, t, " ms"@));
    } else if ns >= 1000 {
        let t = lemma_fixed_point(ns as nat, 1000, " us"@);
        assert(is_rounded(t, 1000, ns as int) && writes_thousandths(text@, t, " us"@));
    }
}

/// Whether a number of thousandths is the nearest one, and the even one of two.
pub open spec fn is_nearest(thousandths: int, size: int, n: int) -> bool {
    let error = thousandths * size - 1000 * n;
    -size <= 2 * error <= size && (2 * error == size || 2 * error == -size ==> thousandths % 2
        == 0)
}

/// A size of no more than 53 bits is rounded to the nearest thousandth, and to the even one
/// where it lies in the middle.
pub proof fn law_size_is_rounded_half_even(bytes: usize, text: String)
    requires
        call_ensures(fmt_bytes, (bytes,), text),
        bytes < 9007199254740992,
    ensures
        1024 <= bytes < 1024 * 1024 ==> exists|t: int|
            is_nearest(t, 1024, bytes as int) && #[trigger] writes_thousandths(text@, t, " KB"@),
        1024 * 1024 <= bytes < 1024 * 1024 * 1024 ==> exists|t: int|
            is_nearest(t, 1048576, bytes as int) && #[trigger] writes_thousandths(
                text@,
                t,
                " MB"@,
            ),
        1024 * 1024 * 1024 <= bytes ==> exists|t: int|
            is_nearest(t, 1073741824, bytes as int) && #[trigger] writes_thousandths(
                text@,
                t,
                " GB"@,
            ),
{
    lemma2_to64();
    if bytes >= 1073741824 {
        let t = lemma_nearest(bytes as nat, 30, " GB"@);
        assert(is_nearest(t, 1073741824, bytes as int) && writes_thousandths(text@, t, " GB"@));
    } else if bytes >= 1048576 {
        let t = lemma_nearest(bytes as nat, 20, " MB"@);
        assert(is_nearest(t, 1048576, bytes as int) && writes_thousandths(text@, t, " MB"@));
    } else if bytes >= 1024 {
        let t = lemma_nearest(bytes as nat, 10, " KB"@);
        assert(is_nearest(t, 1024, bytes as int) && writes_thousandths(text@, t, " KB"@));
    }
}

proof fn lemma_scale_is_power(n: nat, d: nat) -> (exponent: nat)
    requires
        n > 0,
    ensures
        quotient_scale(n, d) == pow2(exponent),
    decreases
            if n < 4503599627370496 * d {
                4503599627370496 * d - n
            } else {
                0
            },
{
    if n < 4503599627370496 * d {
        let half = lemma_scale_is_power(2 * n, d);
        lemma_pow2_unfold(half + 1);
        half + 1
    } else {
        lemma2_to64();
        0
    }
}

proof fn lemma_nearest(n: nat, exponent: nat, unit: Seq<char>) -> (thousandths: int)
    requires
        n < 9007199254740992,
        n >= pow2(exponent),
        exponent >= 1,
    ensures
        is_nearest(thousandths, pow2(exponent) as int, n as int),
        writes_thousandths(fixed_point(n, pow2(exponent)) + unit, thousandths, unit),
{
    let d = pow2(exponent);
    lemma_pow2_pos(exponent);
    // the number is a float itself
    assert(round_half_even(n, 1) == n);
    assert(n * float_spacing(n) == n) by (nonlinear_arith)
        requires
            float_spacing(n) == 1,
    ;
    assert(nearest_float(n) == n);
    let s = quotient_scale(n, d);
    let a = lemma_scale_is_power(n, d);
    lemma_scale(n, d);
    if a < exponent {
        lemma_pow2_unfold(exponent);
        if a < exponent - 1 {
            lemma_pow2_strictly_increases(a, (exponent - 1) as nat);
        }
        assert(2 * s <= d);
        assert(2 * (n * s) <= n * d) by (nonlinear_arith)
            requires
                2 * s <= d,
        ;
        assert(n * d < 9007199254740992 * d) by (nonlinear_arith)
            requires
                n < 9007199254740992,
                d > 0,
        ;
    }
    let c = pow2((a - exponent) as nat);
    lemma_pow2_adds(exponent, (a - exponent) as nat);
    lemma_pow2_pos((a - exponent) as nat);
    assert(s == d * c);
    lemma_quotient_spacing(n, d);
    assert(quotient_spacing(n, d) == 1) by {
        assert(n < 9007199254740992 * d) by (nonlinear_arith)
            requires
                n < 9007199254740992,
                d >= 1,
        ;
    }
    assert(d * 1 == d);
    assert(n * s == (n * c) * d) by (nonlinear_arith)
        requires
            s == d * c,
    ;
    lemma_exact(n * c, d);
    let m = n * c;
    assert(m * 1 * 1000 == (1000 * n) * c) by (nonlinear_arith)
        requires
            m == n * c,
    ;
    let t = quotient_thousandths(n, d);
    assert(t == round_half_even((1000 * n) * c, d * c));
    lemma_half_even((1000 * n) * c, d * c);
    let error = t * d - 1000 * n;
    let scaled = t * (d * c) - (1000 * n) * c;
    assert(scaled == error * c) by (nonlinear_arith)
        requires
            scaled == t * (d * c) - (1000 * n) * c,
            error == t * d - 1000 * n,
    ;
    assert(2 * (error * c) == (2 * error) * c && d * c == c * d) by (nonlinear_arith);
    assert(-d <= 2 * error <= d) by (nonlinear_arith)
        requires
            -(d * c) <= (2 * error) * c <= d * c,
            c > 0,
    ;
    if 2 * error == d {
        assert((2 * error) * c == d * c);
    }
    if 2 * error == -d {
        assert((2 * error) * c == -(d * c)) by (nonlinear_arith)
            requires
                2 * error == -d,
        ;
    }
    lemma_point(t, unit);
    t as int
}

proof fn lemma_exact(q: nat, d: nat)
    requires
        d > 0,
    ensures
        round_half_even(q * d, d) == q,
{
    assert((q * d) / d == q && (q * d) % d == 0) by (nonlinear_arith)
        requires
            d > 0,
    ;
}

proof fn lemma_half_even(n: nat, d: nat)
    requires
        d > 0,
    ensures
        ({
            let q = round_half_even(n, d);
            let error = q * d - n;
            -d <= 2 * error <= d && (2 * error == d || 2 * error == -d ==> q % 2 == 0)
        }),
{
    let below = n / d;
    let left = n % d;
    assert(n == below * d + left && 0 <= left < d && (below + 1) * d == below * d + d)
        by (nonlinear_arith)
        requires
            d > 0,
            below == n / d,
            left == n % d,
    ;
}

} // verus!
