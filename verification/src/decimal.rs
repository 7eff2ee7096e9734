//! Quotients as double-precision arithmetic computes them, written in decimal.
//!
//! A positive double is a whole number of at most 53 bits times a power of two.
//! Conversion, division and multiplication each round to the nearest double, a
//! tie going to the even one. Writing a double with a fixed number of decimals
//! rounds its exact value the same way.
use vstd::arithmetic::power2;
use vstd::prelude::*;

use crate::text;

verus! {

/// The value `m * 2^e`.
#[derive(Debug, Clone, Copy, PartialEq, Eq, Structural)]
pub struct Double {
    pub m: u64,
    pub e: i32,
}

/// The whole number nearest to `n / d`, a tie going to the even one.
pub open spec fn half_even(n: nat, d: nat) -> nat {
    let q = n / d;
    let r = n % d;
    if 2 * r < d {
        q
    } else if 2 * r > d {
        q + 1
    } else if q % 2 == 0 {
        q
    } else {
        q + 1
    }
}

/// The smallest 53-bit number.
pub const LOW: u64 = 0x10_0000_0000_0000;

/// The smallest number of more than 53 bits.
pub const HIGH: u64 = 0x20_0000_0000_0000;

/// The double nearest to `n / d * 2^e`, for positive `n` and `d`: the quotient
/// is doubled or halved until it has 53 bits, then rounded.
pub open spec fn nearest(n: nat, d: nat, e: int) -> (nat, int)
    decreases
            if n < LOW * d {
                LOW * d - n
            } else if n >= HIGH * d {
                n - HIGH * d + 1
            } else {
                0
            },
    when n > 0 && d > 0
{
    if n < LOW * d {
        nearest(2 * n, d, e - 1)
    } else if n >= HIGH * d {
        nearest(n, 2 * d, e + 1)
    } else {
        (half_even(n, d), e)
    }
}

/// A positive whole number as a double.
pub open spec fn from_nat(n: nat) -> (nat, int) {
    nearest(n, 1, 0)
}

/// The quotient of two doubles.
pub open spec fn quotient(a: (nat, int), b: (nat, int)) -> (nat, int) {
    nearest(a.0, b.0, a.1 - b.1)
}

/// A double times a whole number that is a double itself.
pub open spec fn times(a: (nat, int), k: nat) -> (nat, int) {
    nearest(a.0 * k, 1, a.1)
}

/// A double in units of `1 / scale`, rounded to a whole number of them.
pub open spec fn in_units(a: (nat, int), scale: nat) -> nat {
    if a.1 >= 0 {
        a.0 * scale * power2::pow2(a.1 as nat)
    } else {
        half_even(a.0 * scale, power2::pow2((-a.1) as nat))
    }
}

/// Tenths in decimal: one digit behind the point.
pub open spec fn tenths_text(v: nat) -> Seq<char> {
    (text::dec(v / 10) + seq!['.']).push(text::digit((v % 10) as int))
}

/// Hundredths in decimal: two digits behind the point.
pub open spec fn hundredths_text(v: nat) -> Seq<char> {
    (text::dec(v / 100) + seq!['.']).push(text::digit((v / 10 % 10) as int)).push(
        text::digit((v % 10) as int),
    )
}

/// `a / b` in hundredths.
pub open spec fn ratio_hundredths(a: nat, b: nat) -> nat {
    if a == 0 {
        0
    } else {
        in_units(quotient(from_nat(a), from_nat(b)), 100)
    }
}

/// `a / b` as a percentage, in tenths of a percent.
pub open spec fn percent_tenths(a: nat, b: nat) -> nat {
    if a == 0 {
        0
    } else {
        in_units(times(quotient(from_nat(a), from_nat(b)), 100), 10)
    }
}

// ── Bounds ──────────────────────────────────────────────────────────────────

/// Twice a power of two is the next one.
proof fn lemma_pow2_step(k: nat)
    ensures
        power2::pow2(k + 1) == 2 * power2::pow2(k),
        power2::pow2(k) > 0,
{
    power2::lemma_pow2_unfold(k + 1);
    power2::lemma_pow2_pos(k);
}

/// How far the quotient was doubled or halved, and that the result has 53 bits
/// or is the next power of two.
proof fn lemma_nearest(n: nat, d: nat, e: int)
    requires
        n > 0,
        d > 0,
    ensures
        LOW <= nearest(n, d, e).0 <= HIGH,
        n < HIGH * d ==> {
            let c = e - nearest(n, d, e).1;
            c >= 0 && LOW * d <= n * power2::pow2(c as nat) < HIGH * d
        },
        n >= LOW * d ==> {
            let c = nearest(n, d, e).1 - e;
            c >= 0 && (LOW * d) * power2::pow2(c as nat) <= n
        },
    decreases
            if n < LOW * d {
                LOW * d - n
            } else if n >= HIGH * d {
                n - HIGH * d + 1
            } else {
                0
            },
{
    assert(power2::pow2(0) == 1) by {
        power2::lemma2_to64();
    }
    let x = nearest(n, d, e).1;
    if n < LOW * d {
        lemma_nearest(2 * n, d, e - 1);
        assert(x == nearest(2 * n, d, e - 1).1);
        let c1 = (e - 1 - x) as nat;
        lemma_pow2_step(c1);
        let p = power2::pow2(c1);
        assert(power2::pow2((e - x) as nat) == 2 * p);
        assert((2 * n) * p == n * (2 * p)) by (nonlinear_arith);
        assert(2 * n < HIGH * d) by (nonlinear_arith)
            requires
                n < LOW * d,
                HIGH == 2 * LOW,
        ;
    } else if n >= HIGH * d {
        assert(n >= LOW * (2 * d)) by (nonlinear_arith)
            requires
                n >= HIGH * d,
                HIGH == 2 * LOW,
        ;
        lemma_nearest(n, 2 * d, e + 1);
        assert(x == nearest(n, 2 * d, e + 1).1);
        let c1 = (x - e - 1) as nat;
        lemma_pow2_step(c1);
        let p = power2::pow2(c1);
        assert(power2::pow2((x - e) as nat) == 2 * p);
        assert((LOW * (2 * d)) * p == (LOW * d) * (2 * p)) by (nonlinear_arith);
    } else {
        lemma_half_even_bounds(n, d);
        let one = power2::pow2(0);
        assert(x == e);
        assert(n * one == n && (LOW * d) * one == LOW * d) by (nonlinear_arith)
            requires
                one == 1,
        ;
    }
}

/// A quotient of 53 bits rounds to 53 bits or the next power of two.
proof fn lemma_half_even_bounds(n: nat, d: nat)
    requires
        d > 0,
        LOW * d <= n < HIGH * d,
    ensures
        LOW <= half_even(n, d) <= HIGH,
{
    let q = n / d;
    vstd::arithmetic::div_mod::lemma_fundamental_div_mod(n as int, d as int);
    assert(LOW <= q < HIGH) by (nonlinear_arith)
        requires
            n == d * q + n % d,
            0 <= n % d < d,
            LOW * d <= n < HIGH * d,
            d > 0,
    ;
}

/// A power of two below another has the smaller exponent.
proof fn lemma_exponent_below(c: nat, k: nat)
    requires
        power2::pow2(c) < power2::pow2(k),
    ensures
        c < k,
{
    if c > k {
        power2::lemma_pow2_strictly_increases(k, c);
    }
}

/// The powers of two that bound the mantissa.
proof fn lemma_powers()
    ensures
        power2::pow2(0) == 1,
        power2::pow2(12) == 0x1000,
        power2::pow2(51) == 0x8_0000_0000_0000,
        power2::pow2(52) == LOW,
        power2::pow2(53) == HIGH,
        power2::pow2(54) == 2 * HIGH,
        power2::pow2(106) == HIGH * HIGH,
{
    power2::lemma2_to64();
    power2::lemma2_to64_rest();
    power2::lemma_pow2_adds(53, 53);
}

/// The exponent of a rounded quotient lies near that of the quotient.
proof fn lemma_nearest_exponent(n: nat, d: nat, e: int)
    requires
        0 < n <= 0x1_0000_0000_0000_0000,
        0 < d <= HIGH,
    ensures
        e - 106 < nearest(n, d, e).1 <= e + 12,
{
    lemma_nearest(n, d, e);
    lemma_powers();
    let x = nearest(n, d, e).1;
    if n < HIGH * d {
        let c = (e - x) as nat;
        let p = power2::pow2(c);
        power2::lemma_pow2_pos(c);
        assert(p < HIGH * HIGH) by (nonlinear_arith)
            requires
                n * p < HIGH * d,
                n >= 1,
                d <= HIGH,
                p > 0,
        ;
        lemma_exponent_below(c, 106);
    } else {
        assert(n >= LOW * d) by (nonlinear_arith)
            requires
                n >= HIGH * d,
                HIGH >= LOW,
                d > 0,
        ;
        let c = (x - e) as nat;
        let p = power2::pow2(c);
        power2::lemma_pow2_pos(c);
        assert(p <= 0x1000) by (nonlinear_arith)
            requires
                (LOW * d) * p <= n,
                n <= 0x1_0000_0000_0000_0000,
                d >= 1,
                p > 0,
                LOW == 0x10_0000_0000_0000,
        ;
        if c > 12 {
            power2::lemma_pow2_strictly_increases(12, c);
        }
    }
}

/// The whole number nearest to a quotient, a tie going to the even one.
fn round_half_even(n: u128, d: u128) -> (q: u128)
    requires
        d > 0,
        n / d < u128::MAX,
    ensures
        q == half_even(n as nat, d as nat),
{
    let q: u128 = n / d;
    let r: u128 = n % d;
    if r < d - r {
        q
    } else if r > d - r {
        q + 1
    } else if q % 2 == 0 {
        q
    } else {
        q + 1
    }
}

/// The double nearest to `n / d * 2^e`.
fn nearest_double(n: u128, d: u128, e: i32) -> (x: Double)
    requires
        0 < n <= 0x1_0000_0000_0000_0000,
        0 < d <= HIGH,
        -200 <= e <= 200,
    ensures
        (x.m as nat, x.e as int) == nearest(n as nat, d as nat, e as int),
        LOW <= x.m <= HIGH,
        e - 106 < x.e <= e + 12,
{
    let ghost result = nearest(n as nat, d as nat, e as int);
    proof {
        lemma_nearest(n as nat, d as nat, e as int);
        lemma_nearest_exponent(n as nat, d as nat, e as int);
    }
    let mut n: u128 = n;
    let mut d: u128 = d;
    let mut e: i32 = e;
    while n < LOW as u128 * d
        invariant
            0 < n,
            0 < d <= HIGH,
            result == nearest(n as nat, d as nat, e as int),
            -400 <= result.1 <= 400,
            e <= 400,
            n <= 0x1_0000_0000_0000_0000 || n < HIGH * d,
            n < HIGH * d ==> result.1 <= e,
            n >= HIGH * d ==> -400 <= e,
        decreases
                if n < LOW * d {
                    LOW * d - n
                } else {
                    0
                },
    {
        assert(2 * n < HIGH * d) by (nonlinear_arith)
            requires
                n < LOW * d,
                HIGH == 2 * LOW,
        ;
        proof {
            lemma_nearest((2 * n) as nat, d as nat, e - 1);
        }
        n = 2 * n;
        e = e - 1;
    }
    while n >= HIGH as u128 * d
        invariant
            0 < n,
            0 < d <= HIGH,
            result == nearest(n as nat, d as nat, e as int),
            -400 <= result.1 <= 400,
            -400 <= e <= 400,
            n <= 0x1_0000_0000_0000_0000 || n < HIGH * d,
            n >= LOW * d,
        decreases n + 1 - d,
    {
        assert(n >= LOW * (2 * d) && d <= 0x800 && d < n) by (nonlinear_arith)
            requires
                n >= HIGH * d,
                n <= 0x1_0000_0000_0000_0000,
                HIGH == 2 * LOW,
                HIGH == 0x20_0000_0000_0000,
                d > 0,
        ;
        proof {
            lemma_nearest(n as nat, (2 * d) as nat, e + 1);
        }
        d = 2 * d;
        e = e + 1;
    }
    proof {
        lemma_half_even_bounds(n as nat, d as nat);
        vstd::arithmetic::div_mod::lemma_fundamental_div_mod(n as int, d as int);
        assert(n / d < HIGH) by (nonlinear_arith)
            requires
                n < HIGH * d,
                d > 0,
        ;
    }
    Double { m: round_half_even(n, d) as u64, e }
}

/// A double in units of `1 / scale`.
fn to_units(x: Double, scale: u64) -> (v: u128)
    requires
        LOW <= x.m <= HIGH,
        x.e <= 60,
        0 < scale <= 100,
    ensures
        v == in_units((x.m as nat, x.e as int), scale as nat),
{
    assert(x.m * scale <= 0xc80_0000_0000_0000) by (nonlinear_arith)
        requires
            x.m <= HIGH,
            HIGH == 0x20_0000_0000_0000,
            scale <= 100,
    ;
    let n: u128 = x.m as u128 * scale as u128;
    proof {
        power2::lemma2_to64();
        power2::lemma2_to64_rest();
    }
    if x.e >= 0 {
        let mut p: u128 = 1;
        let mut k: i32 = 0;
        while k < x.e
            invariant
                0 <= k <= x.e <= 60,
                p == power2::pow2(k as nat),
                p <= 0x1000_0000_0000_0000,
                power2::pow2(60) == 0x1000_0000_0000_0000,
            decreases x.e - k,
        {
            proof {
                lemma_pow2_step(k as nat);
                if k + 1 < 60 {
                    power2::lemma_pow2_strictly_increases((k + 1) as nat, 60);
                }
            }
            p = 2 * p;
            k = k + 1;
        }
        assert(n * p <= 0xc80_0000_0000_0000 * 0x1000_0000_0000_0000) by (nonlinear_arith)
            requires
                0 <= n <= 0xc80_0000_0000_0000,
                0 <= p <= 0x1000_0000_0000_0000,
        ;
        n * p
    } else if x.e < -62 {
        proof {
            let k = (-x.e) as nat;
            power2::lemma_pow2_strictly_increases(62, k);
            assert(power2::pow2(k) > 2 * n);
            let d = power2::pow2(k);
            vstd::arithmetic::div_mod::lemma_small_mod(n as nat, d);
            assert(n as nat / d == 0) by {
                vstd::arithmetic::div_mod::lemma_basic_div(n as int, d as int);
            }
        }
        0
    } else {
        let mut p: u128 = 1;
        let mut k: i32 = 0;
        let end: i32 = -x.e;
        while k < end
            invariant
                0 <= k <= end <= 62,
                p == power2::pow2(k as nat),
                p <= 0x4000_0000_0000_0000,
                power2::pow2(62) == 0x4000_0000_0000_0000,
            decreases end - k,
        {
            proof {
                lemma_pow2_step(k as nat);
                if k + 1 < 62 {
                    power2::lemma_pow2_strictly_increases((k + 1) as nat, 62);
                }
            }
            p = 2 * p;
            k = k + 1;
        }
        proof {
            power2::lemma_pow2_pos(k as nat);
            assert(n / p <= n) by (nonlinear_arith)
                requires
                    p > 0,
                    n >= 0,
            ;
        }
        round_half_even(n, p)
    }
}

/// The quotient of two positive whole numbers as doubles.
fn double_quotient(a: u64, b: u64) -> (x: Double)
    requires
        a > 0,
        b > 0,
    ensures
        (x.m as nat, x.e as int) == quotient(from_nat(a as nat), from_nat(b as nat)),
        LOW <= x.m <= HIGH,
        -171 <= x.e <= 20,
{
    let da: Double = nearest_double(a as u128, 1, 0);
    let db: Double = nearest_double(b as u128, 1, 0);
    proof {
        lemma_whole_exponent(a as nat);
        lemma_whole_exponent(b as nat);
        lemma_quotient_exponent(da.m as nat, db.m as nat, da.e - db.e);
    }
    nearest_double(da.m as u128, db.m as u128, da.e - db.e)
}

/// The exponent of a whole number of at most 64 bits.
proof fn lemma_whole_exponent(n: nat)
    requires
        0 < n <= u64::MAX,
    ensures
        -53 <= from_nat(n).1 <= 12,
{
    lemma_nearest(n, 1, 0);
    lemma_nearest_exponent(n, 1, 0);
    lemma_powers();
    let x = from_nat(n).1;
    if n < HIGH {
        let c = (0 - x) as nat;
        let p = power2::pow2(c);
        power2::lemma_pow2_pos(c);
        assert(p < HIGH) by (nonlinear_arith)
            requires
                n * p < HIGH,
                n >= 1,
                p > 0,
        ;
        lemma_exponent_below(c, 53);
    }
}

/// Dividing one mantissa by another takes at least 51 doublings.
proof fn lemma_quotient_exponent(n: nat, d: nat, e: int)
    requires
        LOW <= n <= HIGH,
        LOW <= d <= HIGH,
    ensures
        nearest(n, d, e).1 <= e - 51,
{
    lemma_nearest(n, d, e);
    lemma_powers();
    let x = nearest(n, d, e).1;
    assert(n < HIGH * d) by (nonlinear_arith)
        requires
            n <= HIGH,
            d >= 2,
            HIGH > 0,
    ;
    let c = (e - x) as nat;
    let p = power2::pow2(c);
    power2::lemma_pow2_pos(c);
    assert(p >= 0x8_0000_0000_0000) by (nonlinear_arith)
        requires
            LOW * d <= n * p,
            n <= HIGH,
            d >= LOW,
            LOW == 0x10_0000_0000_0000,
            HIGH == 0x20_0000_0000_0000,
            p > 0,
    ;
    if c < 51 {
        power2::lemma_pow2_strictly_increases(c, 51);
    }
}

/// Appends tenths with one digit behind the point.
fn push_tenths(out: &mut String, v: u128)
    ensures
        final(out)@ == old(out)@ + tenths_text(v as nat),
{
    let ghost before = out@;
    text::push_dec_wide(out, v / 10);
    out.push('.');
    text::push_digit(out, (v % 10) as u64);
    assert(out@ =~= before + tenths_text(v as nat));
}

/// Appends hundredths with two digits behind the point.
fn push_hundredths(out: &mut String, v: u128)
    ensures
        final(out)@ == old(out)@ + hundredths_text(v as nat),
{
    let ghost before = out@;
    text::push_dec_wide(out, v / 100);
    out.push('.');
    text::push_digit(out, (v / 10 % 10) as u64);
    text::push_digit(out, (v % 10) as u64);
    assert(out@ =~= before + hundredths_text(v as nat));
}

/// Appends `a / b` with two decimals.
pub fn push_ratio(out: &mut String, a: u64, b: u64)
    requires
        b > 0,
    ensures
        final(out)@ == old(out)@ + hundredths_text(ratio_hundredths(a as nat, b as nat)),
{
    if a == 0 {
        push_hundredths(out, 0);
    } else {
        push_hundredths(out, to_units(double_quotient(a, b), 100));
    }
}

/// Appends `a / b` in percent with one decimal.
pub fn push_percent(out: &mut String, a: u64, b: u64)
    requires
        b > 0,
    ensures
        final(out)@ == old(out)@ + tenths_text(percent_tenths(a as nat, b as nat)),
{
    if a == 0 {
        push_tenths(out, 0);
    } else {
        let x: Double = double_quotient(a, b);
        let y: Double = nearest_double(x.m as u128 * 100, 1, x.e);
        push_tenths(out, to_units(y, 10));
    }
}

// ── Laws ────────────────────────────────────────────────────────────────────

/// Doubling a small quotient `k` times only moves the exponent.
proof fn lemma_doubled(n: nat, d: nat, e: int, k: nat)
    requires
        n > 0,
        d > 0,
        k > 0 ==> n * power2::pow2((k - 1) as nat) < LOW * d,
    ensures
        nearest(n, d, e) == nearest(n * power2::pow2(k), d, e - k),
    decreases k,
{
    lemma_powers();
    if k == 0 {
        let one = power2::pow2(0);
        assert(n * one == n) by (nonlinear_arith)
            requires
                one == 1,
        ;
    } else {
        let p = power2::pow2((k - 1) as nat);
        lemma_pow2_step((k - 1) as nat);
        assert(power2::pow2(k) == 2 * p);
        if k > 1 {
            let h = power2::pow2((k - 2) as nat);
            lemma_pow2_step((k - 2) as nat);
            assert(n * h <= n * p) by (nonlinear_arith)
                requires
                    p == 2 * h,
                    n > 0,
                    h > 0,
            ;
        }
        lemma_doubled(n, d, e, (k - 1) as nat);
        assert(n * p > 0) by (nonlinear_arith)
            requires
                n > 0,
                p > 0,
        ;
        assert(2 * (n * p) == n * (2 * p)) by (nonlinear_arith);
        assert(nearest((n * p) as nat, d, e - (k - 1)) == nearest(2 * (n * p) as nat, d, e - k));
    }
}

/// The whole of anything is one hundred percent.
pub proof fn law_whole_is_hundred_percent(n: nat)
    requires
        0 < n <= u64::MAX,
    ensures
        percent_tenths(n, n) == 1000,
        tenths_text(percent_tenths(n, n)) == "100.0"@,
{
    lemma_nearest(n, 1, 0);
    lemma_powers();
    let m = from_nat(n).0;
    let p = power2::pow2(51);
    assert(m * p < LOW * m) by (nonlinear_arith)
        requires
            p == 0x8_0000_0000_0000,
            LOW == 0x10_0000_0000_0000,
            m > 0,
    ;
    lemma_doubled(m, m, 0, 52);
    let full = power2::pow2(52);
    let top = m * full;
    assert(top == LOW * m && top > 0 && top < HIGH * m && top / m == LOW && top % m == 0) by {
        assert(m * full == LOW * m) by (nonlinear_arith)
            requires
                full == LOW,
        ;
        assert(LOW * m < HIGH * m && LOW * m > 0) by (nonlinear_arith)
            requires
                LOW < HIGH,
                LOW > 0,
                m > 0,
        ;
        vstd::arithmetic::div_mod::lemma_div_multiples_vanish(LOW as int, m as int);
        vstd::arithmetic::div_mod::lemma_mod_multiples_basic(LOW as int, m as int);
        assert(m * LOW == LOW * m) by (nonlinear_arith);
    }
    assert(half_even(top, m) == LOW);
    assert(nearest(top, m, -52) == (LOW as nat, -52int));
    assert(quotient(from_nat(n), from_nat(n)) == (LOW as nat, -52int));
    let hundred: nat = (LOW * 100) as nat;
    assert(nearest(hundred, 1, -52) == (0x19_0000_0000_0000nat, -46int)) by {
        assert(nearest(hundred, 1, -52) == nearest(hundred, 2, -51));
        assert(nearest(hundred, 2, -51) == nearest(hundred, 4, -50));
        assert(nearest(hundred, 4, -50) == nearest(hundred, 8, -49));
        assert(nearest(hundred, 8, -49) == nearest(hundred, 16, -48));
        assert(nearest(hundred, 16, -48) == nearest(hundred, 32, -47));
        assert(nearest(hundred, 32, -47) == nearest(hundred, 64, -46));
        assert(half_even(hundred, 64) == 0x19_0000_0000_0000);
    }
    power2::lemma2_to64();
    power2::lemma2_to64_rest();
    assert(power2::pow2(46) == 0x4000_0000_0000);
    assert(half_even((0x19_0000_0000_0000nat * 10) as nat, 0x4000_0000_0000) == 1000);
    assert(percent_tenths(n, n) == 1000);
    reveal_strlit("100.0");
    reveal_with_fuel(text::dec, 4);
    assert(text::dec(100) =~= seq!['1', '0', '0']);
    assert(tenths_text(1000) =~= "100.0"@);
}

/// Rounding goes to the nearest whole number: the quotient is never more than half a
/// unit away, and from halfway it goes to the even one.
pub proof fn law_rounding_goes_to_the_nearest(n: nat, d: nat)
    requires
        d > 0,
    ensures
        ({
            let q = half_even(n, d);
            &&& 2 * n - d <= 2 * (q * d) <= 2 * n + d
            &&& 2 * (q * d) == 2 * n - d || 2 * (q * d) == 2 * n + d ==> q % 2 == 0
        }),
{
    let q = n / d;
    let r = n % d;
    vstd::arithmetic::div_mod::lemma_fundamental_div_mod(n as int, d as int);
    assert(q * d == d * q && (q + 1) * d == d * q + d) by (nonlinear_arith);
}

/// A number of tenths, or of hundredths, is written as its whole part, a point, and
/// its digits behind the point.
pub proof fn law_decimals_stand_behind_the_point(whole: nat, tenth: nat, hundredth: nat)
    requires
        tenth < 10,
        hundredth < 10,
    ensures
        tenths_text(10 * whole + tenth) == text::dec(whole) + seq!['.'] + text::dec(tenth),
        hundredths_text(100 * whole + 10 * tenth + hundredth) == text::dec(whole) + seq!['.']
            + text::dec(tenth) + text::dec(hundredth),
{
    assert(tenths_text(10 * whole + tenth) =~= text::dec(whole) + seq!['.'] + text::dec(tenth));
    let v = 100 * whole + 10 * tenth + hundredth;
    assert(v / 100 == whole && v / 10 % 10 == tenth && v % 10 == hundredth);
    assert(hundredths_text(v) =~= text::dec(whole) + seq!['.'] + text::dec(tenth) + text::dec(
        hundredth,
    ));
}

/// Nothing of anything is zero, in hundredths and in tenths of a percent.
pub proof fn law_nothing_is_zero(b: nat)
    ensures
        ratio_hundredths(0, b) == 0,
        percent_tenths(0, b) == 0,
{
}

} // verus!
