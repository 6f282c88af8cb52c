//! Numbers, times and sizes as the commands show them.
use crate::text::{chars_of, decimal, decimal_text, string_of};
use vstd::prelude::*;
use vstd::string::*;

verus! {

// ---------------------------------------------------------------------------
// Thousands
// ---------------------------------------------------------------------------

/// The digits in groups of three, counted from the right, with a comma between
/// groups.
pub open spec fn grouped(digits: Seq<char>) -> Seq<char>
    decreases digits.len(),
{
    if digits.len() <= 3 {
        digits
    } else {
        grouped(digits.take(digits.len() - 3)) + seq![','] + digits.skip(digits.len() - 3)
    }
}

fn group(v: &Vec<char>, n: usize) -> (s: String)
    requires
        n <= v.len(),
    ensures
        s@ == grouped(v@.take(n as int)),
    decreases n,
{
    let ghost digits = v@.take(n as int);
    if n <= 3 {
        let s = string_of(v, 0, n);
        assert(s@ =~= digits);
        return s;
    }
    let mut s = group(v, n - 3);
    assert(digits.take(n - 3) =~= v@.take(n - 3));
    s.push(',');
    let tail = string_of(v, n - 3, n);
    assert(tail@ =~= digits.skip(n - 3));
    let ghost before = s@;
    s.append(tail.as_str());
    assert(s@ =~= grouped(digits.take(n - 3)) + seq![','] + digits.skip(n - 3));
    s
}

/// A number with its digits in groups of three.
pub fn format_with_commas(n: u64) -> (s: String)
    ensures
        s@ == grouped(decimal(n as nat)),
{
    let digits = decimal_text(n);
    let v = chars_of(digits.as_str());
    assert(v@.take(v@.len() as int) =~= v@);
    group(&v, v.len())
}

/// The text without its commas.
pub open spec fn ungrouped(s: Seq<char>) -> Seq<char> {
    s.filter(|c: char| c != ',')
}

/// Taking the commas out again gives the digits back.
pub proof fn grouping_only_adds_commas(digits: Seq<char>)
    requires
        !digits.contains(','),
    ensures
        ungrouped(grouped(digits)) == digits,
    decreases digits.len(),
{
    let keep = |c: char| c != ',';
    if digits.len() <= 3 {
        lemma_filter_all(digits);
    } else {
        let head = digits.take(digits.len() - 3);
        let tail = digits.skip(digits.len() - 3);
        assert(!head.contains(',')) by {
            if head.contains(',') {
                let i = choose|i: int| 0 <= i < head.len() && head[i] == ',';
                assert(digits[i] == ',');
            }
        }
        assert(!tail.contains(',')) by {
            if tail.contains(',') {
                let i = choose|i: int| 0 <= i < tail.len() && tail[i] == ',';
                assert(digits[i + digits.len() - 3] == ',');
            }
        }
        grouping_only_adds_commas(head);
        lemma_filter_all(tail);
        Seq::filter_distributes_over_add(grouped(head) + seq![','], tail, keep);
        Seq::filter_distributes_over_add(grouped(head), seq![','], keep);
        let comma = seq![','];
        assert(comma.filter(keep) =~= Seq::<char>::empty()) by {
            reveal_with_fuel(Seq::<_>::filter, 2);
            assert(comma.drop_last() =~= Seq::<char>::empty());
            assert(comma.last() == ',');
            assert(!keep(','));
        }
        assert(head + tail =~= digits);
        assert(head + Seq::<char>::empty() + tail =~= digits);
    }
}

proof fn lemma_filter_all(s: Seq<char>)
    requires
        !s.contains(','),
    ensures
        s.filter(|c: char| c != ',') == s,
    decreases s.len(),
{
    reveal(Seq::filter);
    if s.len() > 0 {
        let head = s.drop_last();
        assert(!head.contains(',')) by {
            if head.contains(',') {
                let i = choose|i: int| 0 <= i < head.len() && head[i] == ',';
                assert(s[i] == ',');
            }
        }
        lemma_filter_all(head);
        assert(s[s.len() - 1] == s.last());
        assert(s.last() != ',') by {
            if s.last() == ',' {
                assert(s.contains(','));
            }
        }
        assert(head.push(s.last()) =~= s);
    }
}

// ---------------------------------------------------------------------------
// Times
// ---------------------------------------------------------------------------

/// Minutes and seconds, the seconds with two digits.
pub open spec fn minutes_text(secs: nat) -> Seq<char> {
    decimal(secs / 60) + "m "@ + two_digits(secs % 60) + "s"@
}

/// A number below a hundred with two digits.
pub open spec fn two_digits(n: nat) -> Seq<char> {
    if n < 10 {
        "0"@ + decimal(n)
    } else {
        decimal(n)
    }
}

fn minutes(secs: u64) -> (s: String)
    ensures
        s@ == minutes_text(secs as nat),
{
    let mut s = decimal_text(secs / 60);
    s.append("m ");
    if secs % 60 < 10 {
        s.append("0");
    }
    s.append(decimal_text(secs % 60).as_str());
    s.append("s");
    assert(s@ =~= minutes_text(secs as nat));
    s
}

/// A number of seconds: minutes and seconds from one minute on.
pub open spec fn secs_text(secs: nat) -> Seq<char> {
    if secs >= 60 {
        minutes_text(secs)
    } else {
        decimal(secs) + "s"@
    }
}

/// A number of seconds as shown.
pub fn fmt_secs(secs: u64) -> (s: String)
    ensures
        s@ == secs_text(secs as nat),
{
    if secs >= 60 {
        return minutes(secs);
    }
    let mut s = decimal_text(secs);
    s.append("s");
    s
}

/// A number of milliseconds, in whole seconds: minutes and seconds from one
/// minute on.
pub open spec fn elapsed_text(ms: nat) -> Seq<char> {
    secs_text(ms / 1000)
}

/// A number of milliseconds as shown.
pub fn fmt_elapsed(ms: u64) -> (s: String)
    ensures
        s@ == elapsed_text(ms as nat),
{
    fmt_secs(ms / 1000)
}

// ---------------------------------------------------------------------------
// Sizes
// ---------------------------------------------------------------------------

/// The integer nearest to `a / b`; of two that are equally near, the even one.
pub open spec fn nearest(a: nat, b: nat) -> nat {
    let q = a / b;
    let r = a % b;
    if 2 * r < b || (2 * r == b && q % 2 == 0) {
        q
    } else {
        q + 1
    }
}

/// Two to the 53: double-precision numbers have that many steps between powers
/// of two.
pub const PRECISION: u64 = 9_007_199_254_740_992;

/// Half of that.
pub const HALF_PRECISION: u64 = 4_503_599_627_370_496;

/// The distance between the double-precision numbers around `n`, where they are
/// further apart than one; otherwise one.
pub open spec fn spacing(n: nat, unit: nat) -> nat
    decreases n - unit,
{
    if unit == 0 || n < unit * PRECISION {
        unit
    } else {
        spacing(n, 2 * unit)
    }
}

/// The double-precision number nearest to `n`.
pub open spec fn as_double(n: nat) -> nat {
    nearest(n, spacing(n, 1)) * spacing(n, 1)
}

/// How many steps a unit has among the double-precision numbers around
/// `n / size`.
pub open spec fn steps(n: nat, size: nat, s: nat) -> nat
    decreases s,
{
    if s <= 1 || n * s < size * PRECISION {
        s
    } else {
        steps(n, size, s / 2)
    }
}

/// The integer nearest to the double-precision quotient of `bytes` by `size`.
pub open spec fn double_quotient(bytes: nat, size: nat) -> nat {
    let n = as_double(bytes);
    let s = steps(n, size, HALF_PRECISION as nat);
    nearest(nearest(n * s, size), s)
}

fn nearest_to(a: u128, b: u128) -> (r: u128)
    requires
        0 < b < 0x1_0000_0000_0000_0000_0000_0000,
        a < 0x1_0000_0000_0000_0000_0000_0000_0000_0000 - 1,
    ensures
        r == nearest(a as nat, b as nat),
{
    let q: u128 = a / b;
    let r: u128 = a % b;
    assert(q <= a) by (nonlinear_arith)
        requires
            q == a / b,
            b > 0,
    ;
    if 2 * r < b || (2 * r == b && q % 2 == 0) {
        q
    } else {
        q + 1
    }
}

proof fn lemma_double_spacing(n: nat, unit: nat)
    requires
        unit > 0,
        n >= unit * PRECISION,
    ensures
        spacing(n, unit) == spacing(n, 2 * unit),
{
}

fn find_spacing(n: u64) -> (unit: u128)
    ensures
        unit == spacing(n as nat, 1),
        0 < unit <= 2048,
        n < unit * PRECISION,
{
    let mut unit: u128 = 1;
    while n as u128 >= unit * (PRECISION as u128)
        invariant
            0 < unit <= 2048,
            spacing(n as nat, unit as nat) == spacing(n as nat, 1),
            unit == 1 || unit == 2 || unit == 4 || unit == 8 || unit == 16 || unit == 32 || unit
                == 64 || unit == 128 || unit == 256 || unit == 512 || unit == 1024 || unit == 2048,
        decreases 2048 - unit,
    {
        proof {
            lemma_double_spacing(n as nat, unit as nat);
            assert(unit != 2048);
        }
        unit = unit * 2;
    }
    unit
}

fn find_steps(n: u128, size: u128) -> (s: u128)
    requires
        n <= 0x1_0000_0000_0000_0800,
        0 < size <= 1_000_000,
    ensures
        s == steps(n as nat, size as nat, HALF_PRECISION as nat),
        0 < s <= HALF_PRECISION,
{
    let mut s: u128 = HALF_PRECISION as u128;
    assert(n * s <= 0x1_0000_0000_0000_0800 * HALF_PRECISION) by (nonlinear_arith)
        requires
            n <= 0x1_0000_0000_0000_0800,
            s == HALF_PRECISION,
    ;
    while s > 1 && n * s >= size * (PRECISION as u128)
        invariant
            0 < s <= HALF_PRECISION,
            n <= 0x1_0000_0000_0000_0800,
            0 < size <= 1_000_000,
            n * s <= 0x1_0000_0000_0000_0800 * HALF_PRECISION,
            steps(n as nat, size as nat, s as nat) == steps(
                n as nat,
                size as nat,
                HALF_PRECISION as nat,
            ),
        decreases s,
    {
        let half: u128 = s / 2;
        assert(n * half <= n * s) by (nonlinear_arith)
            requires
                half == s / 2,
                s > 0,
                n >= 0,
        ;
        s = half;
    }
    s
}

fn quotient(bytes: u64, size: u64) -> (r: u64)
    requires
        1_000 <= size <= 1_000_000,
        size <= bytes,
    ensures
        r == double_quotient(bytes as nat, size as nat),
{
    let unit: u128 = find_spacing(bytes);
    let whole: u128 = nearest_to(bytes as u128, unit);
    assert(whole <= bytes / (unit as u64) + 1);
    assert(whole * unit <= bytes + unit) by (nonlinear_arith)
        requires
            whole <= bytes as nat / unit as nat + 1,
            unit > 0,
    ;
    let n: u128 = whole * unit;
    let s: u128 = find_steps(n, size as u128);
    assert(n * s <= 0x1_0000_0000_0000_0800 * HALF_PRECISION) by (nonlinear_arith)
        requires
            n <= 0x1_0000_0000_0000_0800,
            s <= HALF_PRECISION,
    ;
    let m: u128 = nearest_to(n * s, size as u128);
    let r: u128 = nearest_to(m, s);
    proof {
        lemma_quotient_fits(n as nat, s as nat, size as nat);
    }
    r as u64
}

proof fn lemma_quotient_fits(n: nat, s: nat, size: nat)
    requires
        n <= 0x1_0000_0000_0000_0800,
        s > 0,
        size >= 1_000,
    ensures
        nearest(nearest(n * s, size), s) <= u64::MAX,
{
    let a = n * s;
    let m = nearest(a, size);
    assert(m <= a / size + 1);
    assert(a / size <= a / 1000) by (nonlinear_arith)
        requires
            size >= 1_000,
            a >= 0,
    ;
    assert(m / s <= (a / 1000 + 1) / s) by (nonlinear_arith)
        requires
            m <= a / 1000 + 1,
            s > 0,
    ;
    assert((n * s / 1000 + 1) / s <= n / 1000 + 2) by (nonlinear_arith)
        requires
            s > 0,
            n >= 0,
    ;
}

/// A size in bytes: in megabytes or kilobytes from one of them on, rounded to
/// the nearest.
pub open spec fn bytes_text(bytes: nat) -> Seq<char> {
    if bytes >= 1_000_000 {
        decimal(double_quotient(bytes, 1_000_000)) + "MB"@
    } else if bytes >= 1_000 {
        decimal(double_quotient(bytes, 1_000)) + "KB"@
    } else {
        decimal(bytes) + "B"@
    }
}

/// A size in bytes as shown.
pub fn fmt_bytes(bytes: u64) -> (s: String)
    ensures
        s@ == bytes_text(bytes as nat),
{
    if bytes >= 1_000_000 {
        let mut s = decimal_text(quotient(bytes, 1_000_000));
        s.append("MB");
        s
    } else if bytes >= 1_000 {
        let mut s = decimal_text(quotient(bytes, 1_000));
        s.append("KB");
        s
    } else {
        let mut s = decimal_text(bytes);
        s.append("B");
        s
    }
}

/// The text with spaces before it, up to a width.
pub open spec fn padded(s: Seq<char>, width: nat) -> Seq<char> {
    Seq::new(
        if s.len() < width {
            (width - s.len()) as nat
        } else {
            0
        },
        |i: int| ' ',
    ) + s
}

/// The text with spaces before it, up to a width.
pub fn pad_left(s: &str, width: usize) -> (r: String)
    ensures
        r@ == padded(s@, width as nat),
{
    let v = chars_of(s);
    let mut r = String::new();
    let n: usize = if v.len() < width {
        width - v.len()
    } else {
        0
    };
    for i in 0..n
        invariant
            r@ == Seq::new(i as nat, |k: int| ' '),
    {
        r.push(' ');
        assert(r@ =~= Seq::new((i + 1) as nat, |k: int| ' '));
    }
    r.append(s);
    r
}

/// The text with spaces after it, up to a width.
pub open spec fn padded_after(s: Seq<char>, width: nat) -> Seq<char> {
    s + Seq::new(
        if s.len() < width {
            (width - s.len()) as nat
        } else {
            0
        },
        |i: int| ' ',
    )
}

/// The text with spaces after it, up to a width.
pub fn pad_right(s: &str, width: usize) -> (r: String)
    ensures
        r@ == padded_after(s@, width as nat),
{
    let v = chars_of(s);
    let mut r = s.to_owned();
    let n: usize = if v.len() < width {
        width - v.len()
    } else {
        0
    };
    for i in 0..n
        invariant
            r@ == s@ + Seq::new(i as nat, |k: int| ' '),
    {
        let ghost before = r@;
        r.push(' ');
        assert(r@ =~= s@ + Seq::new((i + 1) as nat, |k: int| ' '));
    }
    r
}

} // verus!
