//! Numbers, times and sizes as they are shown.
use crate::commands::format::{
    as_double, bytes_text, double_quotient, elapsed_text, grouped, nearest, padded, padded_after,
    secs_text, spacing, steps, two_digits, HALF_PRECISION, PRECISION,
};
use crate::text::decimal;
use vstd::prelude::*;

verus! {

/// Of a number in groups, counted from the right, every fourth character is a comma
/// and the others are the digits in their order; no comma comes first.
pub proof fn every_fourth_character_is_a_comma(digits: Seq<char>, j: int)
    requires
        digits.len() > 0,
        0 <= j < grouped(digits).len(),
    ensures
        grouped(digits).len() == digits.len() + (digits.len() - 1) / 3,
        ({
            let c = grouped(digits)[grouped(digits).len() - 1 - j];
            &&& j % 4 == 3 ==> c == ','
            &&& j % 4 != 3 ==> j - j / 4 < digits.len() && c == digits[digits.len() - 1 - (j - j
                / 4)]
        }),
        grouped(digits)[0] == digits[0],
    decreases digits.len(),
{
    lemma_grouped(digits);
    if digits.len() > 3 {
        let head = digits.take(digits.len() - 3);
        let tail = digits.skip(digits.len() - 3);
        let g = grouped(digits);
        lemma_grouped(head);
        assert(g == grouped(head) + seq![','] + tail);
        if j >= 4 {
            every_fourth_character_is_a_comma(head, j - 4);
            assert(g[g.len() - 1 - j] == grouped(head)[grouped(head).len() - 1 - (j - 4)]);
            assert(j / 4 == (j - 4) / 4 + 1);
        } else {
            every_fourth_character_is_a_comma(head, 0);
        }
    }
}

proof fn lemma_grouped(digits: Seq<char>)
    requires
        digits.len() > 0,
    ensures
        grouped(digits).len() == digits.len() + (digits.len() - 1) / 3,
        grouped(digits)[0] == digits[0],
    decreases digits.len(),
{
    if digits.len() > 3 {
        lemma_grouped(digits.take(digits.len() - 3));
    }
}

/// Short times are shown in seconds. From one minute on there are minutes and what
/// is left of a minute, with two digits.
pub proof fn times_are_minutes_and_seconds(minutes: nat, seconds: nat)
    requires
        seconds < 60,
    ensures
        secs_text(seconds) == decimal(seconds) + "s"@,
        minutes > 0 ==> secs_text(minutes * 60 + seconds) == decimal(minutes) + "m "@ + two_digits(
            seconds,
        ) + "s"@,
        seconds >= 10 ==> two_digits(seconds) == decimal(seconds),
        seconds < 10 ==> two_digits(seconds) == seq!['0'] + decimal(seconds),
{
    reveal_strlit("0");
    assert("0"@ =~= seq!['0']);
    assert((minutes * 60 + seconds) / 60 == minutes && (minutes * 60 + seconds) % 60 == seconds)
        by (nonlinear_arith)
        requires
            seconds < 60,
    ;
}

/// Fractions of a second are not shown.
pub proof fn fractions_of_a_second_are_dropped(seconds: nat, ms: nat)
    requires
        ms < 1000,
    ensures
        elapsed_text(seconds * 1000 + ms) == secs_text(seconds),
{
    assert((seconds * 1000 + ms) / 1000 == seconds) by (nonlinear_arith)
        requires
            ms < 1000,
    ;
}

/// Rounding goes to an integer that is at most one half away, and to the even one of
/// two that are equally near.
pub proof fn rounding_goes_to_the_nearest(a: nat, b: nat)
    requires
        b > 0,
    ensures
        2 * (nearest(a, b) * b) <= 2 * a + b,
        2 * a <= 2 * (nearest(a, b) * b) + b,
        2 * (nearest(a, b) * b) == 2 * a + b || 2 * a == 2 * (nearest(a, b) * b) + b ==> nearest(
            a,
            b,
        ) % 2 == 0,
{
    let q = a / b;
    let r = a % b;
    assert(a == q * b + r && r < b && (q + 1) * b == q * b + b) by (nonlinear_arith)
        requires
            b > 0,
            q == a / b,
            r == a % b,
    ;
}

/// Small numbers are double-precision numbers themselves.
pub proof fn small_numbers_are_exact(n: nat)
    requires
        n < 9_007_199_254_740_992,
    ensures
        as_double(n) == n,
{
    assert(spacing(n, 1) == 1);
    assert(n / 1 == n && n % 1 == 0);
}

/// Sizes are shown in bytes, in kilobytes from a thousand bytes on, and in megabytes
/// from a million on.
pub proof fn sizes_have_their_unit(bytes: nat)
    ensures
        bytes < 1_000 ==> bytes_text(bytes) == decimal(bytes) + "B"@,
        1_000 <= bytes < 1_000_000 ==> bytes_text(bytes) == decimal(double_quotient(bytes, 1_000))
            + "KB"@,
        1_000_000 <= bytes ==> bytes_text(bytes) == decimal(double_quotient(bytes, 1_000_000))
            + "MB"@,
{
}

proof fn lemma_steps(n: nat, size: nat, s: nat)
    requires
        s >= 1,
    ensures
        steps(n, size, s) >= 1,
    decreases s,
{
    if !(s <= 1 || n * s < size * PRECISION) {
        lemma_steps(n, size, s / 2);
    }
}

/// A size that is shown in kilobytes or megabytes is off by no more than one of them.
pub proof fn sizes_are_right_to_the_unit(bytes: nat, size: nat)
    requires
        bytes < 9_007_199_254_740_992,
        size > 0,
    ensures
        double_quotient(bytes, size) * size <= bytes + size,
        bytes <= double_quotient(bytes, size) * size + size,
{
    small_numbers_are_exact(bytes);
    let s = steps(bytes, size, HALF_PRECISION as nat);
    lemma_steps(bytes, size, HALF_PRECISION as nat);
    let x = nearest(bytes * s, size);
    let q = nearest(x, s);
    rounding_goes_to_the_nearest(bytes * s, size);
    rounding_goes_to_the_nearest(x, s);
    assert(q == double_quotient(bytes, size));
    assert(q * size <= bytes + size) by (nonlinear_arith)
        requires
            s >= 1,
            size >= 1,
            2 * (q * s) <= 2 * x + s,
            2 * (x * size) <= 2 * (bytes * s) + size,
    {
        assert(2 * (q * s) * size <= (2 * x + s) * size);
        assert((2 * x + s) * size == 2 * (x * size) + s * size);
        assert(2 * ((q * size) * s) <= 2 * (bytes * s) + size + s * size);
        assert(size <= s * size);
        assert((q * size) * s <= (bytes + size) * s);
    }
    assert(bytes <= q * size + size) by (nonlinear_arith)
        requires
            s >= 1,
            size >= 1,
            2 * x <= 2 * (q * s) + s,
            2 * (bytes * s) <= 2 * (x * size) + size,
    {
        assert(2 * x * size <= (2 * (q * s) + s) * size);
        assert((2 * (q * s) + s) * size == 2 * ((q * size) * s) + s * size);
        assert(2 * (bytes * s) <= 2 * ((q * size) * s) + s * size + size);
        assert(size <= s * size);
        assert(bytes * s <= (q * size + size) * s);
    }
}

/// A padded text is at least as wide as asked for and no wider than needed; the text
/// stands at its end, or at its beginning, and the rest are spaces.
pub proof fn padding_adds_spaces_only(s: Seq<char>, width: nat, i: int)
    ensures
        padded(s, width).len() == (if s.len() < width {
            width
        } else {
            s.len()
        }),
        padded(s, width).skip(padded(s, width).len() - s.len()) == s,
        0 <= i < padded(s, width).len() - s.len() ==> padded(s, width)[i] == ' ',
        padded_after(s, width).len() == (if s.len() < width {
            width
        } else {
            s.len()
        }),
        padded_after(s, width).take(s.len() as int) == s,
        s.len() <= i < padded_after(s, width).len() ==> padded_after(s, width)[i] == ' ',
{
    assert(padded(s, width).skip(padded(s, width).len() - s.len()) =~= s);
    assert(padded_after(s, width).take(s.len() as int) =~= s);
}

} // verus!
