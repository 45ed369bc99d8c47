//! Quotients rounded as binary floating point rounds them.

use vstd::arithmetic::div_mod::*;
use vstd::arithmetic::power2::*;
use vstd::prelude::*;

verus! {

/// The quotient `n / d`, rounded to the nearest integer, and between two to the even one.
pub open spec fn rounded(n: nat, d: nat) -> nat {
    let q = n / d;
    let r = n % d;
    if 2 * r > d || (2 * r == d && q % 2 == 1) {
        q + 1
    } else {
        q
    }
}

/// The quotient `n / d`, rounded to the nearest integer, and between two to the even one.
pub fn round_div(n: u128, d: u128) -> (q: u128)
    requires
        0 < d < 0x8000_0000_0000_0000_0000_0000_0000_0000,
        n < 0x8000_0000_0000_0000_0000_0000_0000_0000,
    ensures
        q == rounded(n as nat, d as nat),
{
    let q: u128 = n / d;
    let r: u128 = n % d;
    proof {
        assert(n / d <= n) by (nonlinear_arith)
            requires
                d > 0,
        ;
    }
    if 2 * r > d || (2 * r == d && q % 2 == 1) {
        q + 1
    } else {
        q
    }
}

proof fn lemma_rounded_at_most(n: nat, d: nat, c: nat)
    requires
        d > 0,
        n <= c * d,
    ensures
        rounded(n, d) <= c,
{
    let q = n / d;
    let r = n % d;
    lemma_fundamental_div_mod(n as int, d as int);
    assert(q <= c) by (nonlinear_arith)
        requires
            n == d * q + r,
            n <= c * d,
            0 <= r,
            d > 0,
    ;
    assert(q == c ==> r == 0) by (nonlinear_arith)
        requires
            n == d * q + r,
            n <= c * d,
            0 <= r,
    ;
}

proof fn lemma_rounded_at_least(n: nat, d: nat, c: nat)
    requires
        d > 0,
        n >= c * d,
    ensures
        rounded(n, d) >= c,
{
    let q = n / d;
    let r = n % d;
    lemma_fundamental_div_mod(n as int, d as int);
    assert(q >= c) by (nonlinear_arith)
        requires
            n == d * q + r,
            n >= c * d,
            0 <= r < d,
            d > 0,
    ;
}

/// How often `unit` can be doubled without growing beyond `n`: the exponent of the quotient
/// `n / unit`.
pub open spec fn exponent(n: nat, unit: nat) -> nat
    decreases n - unit,
{
    if unit == 0 || n < 2 * unit {
        0
    } else {
        1 + exponent(n, 2 * unit)
    }
}

/// A quotient lies between two neighbouring powers of two, by its exponent.
pub proof fn lemma_exponent(n: nat, unit: nat)
    requires
        0 < unit <= n,
    ensures
        unit * pow2(exponent(n, unit)) <= n < unit * pow2(exponent(n, unit) + 1),
    decreases n - unit,
{
    let e = exponent(n, unit);
    lemma2_to64();
    lemma_pow2_unfold(e + 1);
    if n >= 2 * unit {
        lemma_exponent(n, 2 * unit);
        lemma_pow2_unfold(e);
        let p = pow2((e - 1) as nat);
        assert((2 * unit) * p == unit * (2 * p)) by (nonlinear_arith);
        assert((2 * unit) * (2 * p) == unit * (2 * (2 * p))) by (nonlinear_arith);
    }
}

/// How often `unit` can be doubled without growing beyond `n`.
fn exponent_of(n: u128, unit: u128) -> (e: u64)
    requires
        0 < unit <= n < 0x4000_0000_0000_0000_0000_0000_0000_0000,
    ensures
        e == exponent(n as nat, unit as nat),
        unit * pow2(e as nat) <= n < unit * pow2((e + 1) as nat),
{
    let ghost all = exponent(n as nat, unit as nat);
    proof {
        lemma_exponent(n as nat, unit as nat);
        lemma2_to64();
        lemma_pow2_adds(64, 62);
        assert(unit * pow2(all) >= pow2(all)) by (nonlinear_arith)
            requires
                unit >= 1,
                pow2(all) >= 0,
        ;
        lemma2_to64_rest();
        if all >= 126 {
            if all > 126 {
                lemma_pow2_strictly_increases(126, all);
            }
        }
    }
    let mut e: u64 = 0;
    let mut t: u128 = unit;
    while 2 * t <= n
        invariant
            0 < t <= n < 0x4000_0000_0000_0000_0000_0000_0000_0000,
            e + exponent(n as nat, t as nat) == all,
            all < 126,
        decreases n - t,
    {
        t = 2 * t;
        e += 1;
    }
    e
}

/// The power `2^e`.
fn power_of(e: u64) -> (p: u128)
    requires
        e <= 120,
    ensures
        p == pow2(e as nat),
        p > 0,
{
    proof {
        lemma2_to64();
        lemma2_to64_rest();
        lemma_pow2_adds(60, 60);
    }
    let mut k: u64 = 0;
    let mut p: u128 = 1;
    while k < e
        invariant
            k <= e <= 120,
            p == pow2(k as nat),
            p > 0,
            pow2(120) == 0x100_0000_0000_0000_0000_0000_0000_0000,
        decreases e - k,
    {
        proof {
            lemma_pow2_unfold((k + 1) as nat);
            lemma_pow2_strictly_increases(k as nat, 120);
        }
        p = 2 * p;
        k += 1;
    }
    p
}

/// The bits of the single-precision number nearest to `n`. Its fraction has 24 bits, of which the
/// first is not written.
pub open spec fn single_bits(n: nat) -> nat {
    let e = exponent(n, 1);
    if n == 0 {
        0
    } else if e <= 23 {
        ((126 + e) * pow2(23) + n * pow2((23 - e) as nat)) as nat
    } else {
        ((126 + e) * pow2(23) + rounded(n, pow2((e - 23) as nat))) as nat
    }
}

/// The bits of the single-precision number nearest to `n`.
pub fn single_bits_of(n: u32) -> (bits: u32)
    ensures
        bits == single_bits(n as nat),
{
    if n == 0 {
        return 0;
    }
    let e: u64 = exponent_of(n as u128, 1);
    proof {
        lemma2_to64();
        if e >= 32 {
            if e > 32 {
                lemma_pow2_strictly_increases(32, e as nat);
            }
        }
    }
    let fraction: u128 = if e <= 23 {
        let p: u128 = power_of(23 - e);
        proof {
            lemma_pow2_adds((e + 1) as nat, (23 - e) as nat);
            assert(n * p < 0x100_0000) by (nonlinear_arith)
                requires
                    n < pow2((e + 1) as nat),
                    pow2((e + 1) as nat) * p == 0x100_0000,
                    p > 0,
            ;
        }
        n as u128 * p
    } else {
        let d: u128 = power_of(e - 23);
        proof {
            if e > 24 {
                lemma_pow2_strictly_increases((e - 23) as nat, 9);
            }
            lemma_pow2_adds((e - 23) as nat, 24);
            lemma_rounded_at_most(n as nat, d as nat, 0x100_0000);
        }
        round_div(n as u128, d)
    };
    let bits: u64 = (126 + e) * 0x80_0000 + fraction as u64;
    bits as u32
}

/// The quotient `n / unit` in tenths, by way of the double-precision number nearest to the
/// quotient: its fraction has 53 bits.
pub open spec fn tenths(n: nat, unit: nat) -> nat {
    let scale = pow2((52 - exponent(n, unit)) as nat);
    rounded(10 * rounded(n * scale, unit), scale)
}

/// The quotient `n / unit` in tenths, by way of the double-precision number nearest to the
/// quotient.
pub fn tenths_of(n: u32, unit: u32) -> (q: u64)
    requires
        0 < unit <= n,
    ensures
        q == tenths(n as nat, unit as nat),
{
    let e: u64 = exponent_of(n as u128, unit as u128);
    proof {
        lemma2_to64();
        lemma2_to64_rest();
        if e >= 32 {
            if e > 32 {
                lemma_pow2_strictly_increases(32, e as nat);
            }
            assert(unit * pow2(e as nat) >= pow2(e as nat)) by (nonlinear_arith)
                requires
                    unit >= 1,
                    pow2(e as nat) >= 0,
            ;
        }
    }
    let scale: u128 = power_of(52 - e);
    proof {
        if e > 0 {
            lemma_pow2_strictly_increases((52 - e) as nat, 52);
        }
        assert(n as u128 * scale <= 0xffff_ffff * 0x10_0000_0000_0000) by (nonlinear_arith)
            requires
                n <= 0xffff_ffff,
                scale <= 0x10_0000_0000_0000,
        ;
    }
    let dividend: u128 = n as u128 * scale;
    let fraction: u128 = round_div(dividend, unit as u128);
    proof {
        assert(dividend * 1 <= dividend * unit) by (nonlinear_arith)
            requires
                unit >= 1,
        ;
        lemma_rounded_at_most(dividend as nat, unit as nat, dividend as nat);
        assert(10 * (n * scale) == (10 * n) * scale) by (nonlinear_arith);
        lemma_rounded_at_most((10 * fraction) as nat, scale as nat, (10 * n) as nat);
    }
    round_div(10 * fraction, scale) as u64
}

/// The quotient `a / b` in whole percent, in double precision: the quotient and its product with
/// 100 are each rounded to a fraction of 53 bits, and then what is behind the point is dropped. It
/// is zero where there is nothing to divide by.
pub open spec fn percent(a: nat, b: nat) -> nat {
    if a == 0 || b == 0 {
        0
    } else {
        let shift = (84 - exponent(a * pow2(32), b)) as nat;
        let fraction = rounded(a * pow2(shift), b);
        let unit = pow2(exponent(100 * fraction, pow2(52)));
        rounded(100 * fraction, unit) * unit / pow2(shift)
    }
}

/// The quotient `a / b` in whole percent, in double precision, as far as an integer of 32 bits
/// goes.
pub fn percent_of(a: u32, b: u32) -> (p: u32)
    ensures
        p == (if percent(a as nat, b as nat) > u32::MAX {
            u32::MAX as nat
        } else {
            percent(a as nat, b as nat)
        }),
{
    if a == 0 || b == 0 {
        return 0;
    }
    proof {
        lemma2_to64();
        lemma2_to64_rest();
    }
    let e: u64 = exponent_of(a as u128 * 0x1_0000_0000, b as u128);
    let ghost p = pow2(e as nat);
    proof {
        if e >= 64 {
            if e > 64 {
                lemma_pow2_strictly_increases(64, e as nat);
            }
            assert(b * p >= p) by (nonlinear_arith)
                requires
                    b >= 1,
                    p >= 0,
            ;
        }
        lemma_pow2_pos(e as nat);
        lemma_pow2_unfold((e + 1) as nat);
    }
    let scale: u128 = power_of(84 - e);
    let ghost dividend = a * scale;
    proof {
        lemma_pow2_adds(e as nat, (84 - e) as nat);
        lemma_pow2_adds(32, 52);
        if e > 0 {
            lemma_pow2_strictly_increases((84 - e) as nat, 84);
        }
        assert(dividend <= 0xffff_ffff * 0x10_0000_0000_0000_0000_0000) by (nonlinear_arith)
            requires
                dividend == a * scale,
                a <= 0xffff_ffff,
                scale <= 0x10_0000_0000_0000_0000_0000,
        ;
        assert(p * dividend == a * (p * scale)) by (nonlinear_arith)
            requires
                dividend == a * scale,
        ;
        assert(0x10_0000_0000_0000 * b <= dividend <= 0x20_0000_0000_0000 * b) by (nonlinear_arith)
            requires
                p * dividend == (a * 0x1_0000_0000) * 0x10_0000_0000_0000,
                b * p <= a * 0x1_0000_0000,
                a * 0x1_0000_0000 < b * (2 * p),
                p > 0,
        ;
        lemma_rounded_at_least(dividend as nat, b as nat, 0x10_0000_0000_0000);
        lemma_rounded_at_most(dividend as nat, b as nat, 0x20_0000_0000_0000);
    }
    let fraction: u128 = round_div(a as u128 * scale, b as u128);
    let k: u64 = exponent_of(100 * fraction, 0x10_0000_0000_0000);
    proof {
        if k > 8 {
            lemma_pow2_strictly_increases(8, k as nat);
        }
    }
    let unit: u128 = power_of(k);
    proof {
        if k < 8 {
            lemma_pow2_strictly_increases(k as nat, 8);
        }
        assert(100 * fraction <= (100 * fraction) * unit) by (nonlinear_arith)
            requires
                unit >= 1,
        ;
        lemma_rounded_at_most((100 * fraction) as nat, unit as nat, (100 * fraction) as nat);
    }
    let product: u128 = round_div(100 * fraction, unit);
    assert(product * unit <= 0x100_0000_0000_0000_0000) by (nonlinear_arith)
        requires
            product <= 100 * 0x20_0000_0000_0000,
            unit <= 0x100,
    ;
    let whole: u128 = product * unit / scale;
    if whole > u32::MAX as u128 {
        u32::MAX
    } else {
        whole as u32
    }
}

/// Rounding goes to the nearest integer: a half at most lies between the quotient and the result,
/// and where it is exactly a half the result is even.
pub proof fn law_rounded_is_nearest(n: nat, d: nat)
    requires
        d > 0,
    ensures
        2 * n <= 2 * (rounded(n, d) * d) + d,
        2 * (rounded(n, d) * d) <= 2 * n + d,
        2 * n == 2 * (rounded(n, d) * d) + d || 2 * (rounded(n, d) * d) == 2 * n + d ==> rounded(n, d)
            % 2 == 0,
{
    let q = n / d;
    let r = n % d;
    lemma_fundamental_div_mod(n as int, d as int);
    assert((q + 1) * d == q * d + d) by (nonlinear_arith);
    assert(d * q == q * d) by (nonlinear_arith);
}

/// A number of tokens in tenths of its unit is the nearest one: off by half a tenth at most, but for
/// an error that no integer shows.
pub proof fn law_tenths_are_nearest(n: nat, unit: nat)
    requires
        0 < unit <= n <= u32::MAX,
    ensures
        2 * (tenths(n, unit) * unit) <= 20 * n + unit + 1,
        20 * n <= 2 * (tenths(n, unit) * unit) + unit + 1,
{
    let e = exponent(n, unit);
    lemma_exponent(n, unit);
    lemma2_to64();
    lemma2_to64_rest();
    lemma_pow2_pos(e);
    let p = pow2(e);
    if e >= 32 {
        if e > 32 {
            lemma_pow2_strictly_increases(32, e);
        }
        assert(unit * p >= p) by (nonlinear_arith)
            requires
                unit >= 1,
                p >= 0,
        ;
    }
    let scale = pow2((52 - e) as nat);
    lemma_pow2_pos((52 - e) as nat);
    lemma_pow2_adds(e, (52 - e) as nat);
    assert(scale > 0x10_0000 * unit) by (nonlinear_arith)
        requires
            p * scale == 0x10_0000_0000_0000,
            unit * p <= n,
            n < 0x1_0000_0000,
            p > 0,
    ;
    let f = rounded(n * scale, unit);
    let q = tenths(n, unit);
    law_rounded_is_nearest(n * scale, unit);
    law_rounded_is_nearest(10 * f, scale);
    let fu = f * unit;
    let qs = q * scale;
    assert(2 * (qs * unit) <= 2 * (10 * fu) + scale * unit) by (nonlinear_arith)
        requires
            2 * qs <= 2 * (10 * f) + scale,
            fu == f * unit,
            unit > 0,
    ;
    assert(2 * (10 * fu) <= 2 * (qs * unit) + scale * unit) by (nonlinear_arith)
        requires
            2 * (10 * f) <= 2 * qs + scale,
            fu == f * unit,
            unit > 0,
    ;
    let qu = q * unit;
    assert(qs * unit == qu * scale) by (nonlinear_arith)
        requires
            qs == q * scale,
            qu == q * unit,
    ;
    let ns = n * scale;
    assert(2 * (qu * scale) <= 20 * ns + 10 * unit + scale * unit);
    assert(20 * ns <= 2 * (qu * scale) + 10 * unit + scale * unit);
    assert(2 * qu <= 20 * n + unit + 1) by (nonlinear_arith)
        requires
            2 * (qu * scale) <= 20 * ns + 10 * unit + scale * unit,
            ns == n * scale,
            10 * unit < scale,
    ;
    assert(20 * n <= 2 * qu + unit + 1) by (nonlinear_arith)
        requires
            20 * ns <= 2 * (qu * scale) + 10 * unit + scale * unit,
            ns == n * scale,
            10 * unit < scale,
    ;
}

proof fn lemma_percent_parts(a: nat, b: nat) -> (parts: (nat, nat, nat))
    requires
        0 < a <= u32::MAX,
        0 < b <= u32::MAX,
    ensures
        ({
            let (scale, unit, product) = parts;
            &&& scale > 0x10_0000 * b
            &&& percent(a, b) == product / scale
            &&& unit <= 256
            &&& 2 * (product * b) <= 200 * (a * scale) + (100 + unit) * b
            &&& 200 * (a * scale) <= 2 * (product * b) + (100 + unit) * b
        }),
{
    lemma2_to64();
    lemma2_to64_rest();
    let e = exponent(a * pow2(32), b);
    assert(b <= a * pow2(32));
    lemma_exponent(a * pow2(32), b);
    lemma_pow2_pos(e);
    lemma_pow2_unfold(e + 1);
    let p = pow2(e);
    if e >= 64 {
        if e > 64 {
            lemma_pow2_strictly_increases(64, e);
        }
        assert(b * p >= p) by (nonlinear_arith)
            requires
                b >= 1,
                p >= 0,
        ;
    }
    let scale = pow2((84 - e) as nat);
    lemma_pow2_pos((84 - e) as nat);
    lemma_pow2_adds(e, (84 - e) as nat);
    lemma_pow2_adds(32, 52);
    let dividend = a * scale;
    assert(p * dividend == (a * 0x1_0000_0000) * 0x10_0000_0000_0000) by (nonlinear_arith)
        requires
            dividend == a * scale,
            p * scale == 0x1_0000_0000 * 0x10_0000_0000_0000,
    ;
    assert(0x10_0000_0000_0000 * b <= dividend <= 0x20_0000_0000_0000 * b) by (nonlinear_arith)
        requires
            p * dividend == (a * 0x1_0000_0000) * 0x10_0000_0000_0000,
            b * p <= a * 0x1_0000_0000,
            a * 0x1_0000_0000 < b * (2 * p),
            p > 0,
    ;
    assert(scale > 0x10_0000 * b) by (nonlinear_arith)
        requires
            0x10_0000_0000_0000 * b <= a * scale,
            a < 0x1_0000_0000,
            b > 0,
    ;
    let f = rounded(dividend, b);
    lemma_rounded_at_least(dividend, b, 0x10_0000_0000_0000);
    lemma_rounded_at_most(dividend, b, 0x20_0000_0000_0000);
    law_rounded_is_nearest(dividend, b);
    let k = exponent(100 * f, pow2(52));
    lemma_exponent(100 * f, pow2(52));
    let unit = pow2(k);
    lemma_pow2_pos(k);
    let whole = rounded(100 * f, unit);
    law_rounded_is_nearest(100 * f, unit);
    let product = whole * unit;
    let fb = f * b;
    assert(2 * (product * b) <= 200 * fb + unit * b && 200 * fb <= 2 * (product * b) + unit * b)
        by (nonlinear_arith)
        requires
            2 * product <= 2 * (100 * f) + unit,
            2 * (100 * f) <= 2 * product + unit,
            fb == f * b,
            b > 0,
    ;
    assert((100 + unit) * b == 100 * b + unit * b) by (nonlinear_arith);
    (scale, unit, product)
}

/// The share in percent is rounded down: it is no more than the quotient, and one percent more is no
/// less than it. There is no share of nothing.
pub proof fn law_percent_rounds_down(a: nat, b: nat)
    requires
        a <= u32::MAX,
        b <= u32::MAX,
    ensures
        percent(a, b) * b <= 100 * a,
        b > 0 ==> 100 * a <= (percent(a, b) + 1) * b,
        b == 0 ==> percent(a, b) == 0,
{
    if a > 0 && b > 0 {
        let (scale, unit, product) = lemma_percent_parts(a, b);
        let q = percent(a, b);
        lemma_fundamental_div_mod(product as int, scale as int);
        let r = product % scale;
        assert(product == scale * q + r && 0 <= r < scale);
        let qb = q * b;
        assert((q + 1) * b == qb + b) by (nonlinear_arith)
            requires
                qb == q * b,
        ;
        assert((100 + unit) * b <= 356 * b) by (nonlinear_arith)
            requires
                unit <= 256,
        ;
        assert(qb <= 100 * a) by (nonlinear_arith)
            requires
                2 * (product * b) <= 200 * (a * scale) + 356 * b,
                product >= scale * q,
                scale > 0x10_0000 * b,
                b > 0,
                qb == q * b,
        ;
        assert(100 * a <= qb + b) by (nonlinear_arith)
            requires
                200 * (a * scale) <= 2 * (product * b) + 356 * b,
                product < scale * q + scale,
                scale > 0x10_0000 * b,
                b > 0,
                qb == q * b,
        ;
    } else {
        assert(percent(a, b) == 0);
        assert(0 * b == 0) by (nonlinear_arith);
    }
}

proof fn lemma_exponent_doubled(n: nat, unit: nat)
    requires
        unit > 0,
    ensures
        exponent(2 * n, 2 * unit) == exponent(n, unit),
    decreases n - unit,
{
    if n >= 2 * unit {
        lemma_exponent_doubled(n, 2 * unit);
    }
}

proof fn lemma_rounded_doubled(n: nat, d: nat)
    requires
        d > 0,
    ensures
        rounded(2 * n, 2 * d) == rounded(n, d),
{
    let q = n / d;
    let r = n % d;
    lemma_fundamental_div_mod(n as int, d as int);
    let dq = d * q;
    assert((2 * d) * q == 2 * dq) by (nonlinear_arith)
        requires
            dq == d * q,
    ;
    assert(2 * n == q * (2 * d) + 2 * r) by (nonlinear_arith)
        requires
            n == d * q + r,
    ;
    lemma_fundamental_div_mod_converse((2 * n) as int, (2 * d) as int, q as int, (2 * r) as int);
}

/// The bits of a single-precision number follow the number: nothing has none, one has those of one,
/// a number twice as large has an exponent that is larger by one, and as long as every integer can
/// be told apart, the next integer is one unit further.
pub proof fn law_single_bits_follow_the_number(n: nat)
    requires
        n > 0,
    ensures
        single_bits(0) == 0,
        single_bits(1) == 0x3f80_0000,
        single_bits(2 * n) == single_bits(n) + 0x80_0000,
        exponent(n, 1) <= 23 && exponent(n + 1, 1) == exponent(n, 1) ==> single_bits(n + 1)
            == single_bits(n) + pow2((23 - exponent(n, 1)) as nat),
{
    lemma2_to64();
    lemma2_to64_rest();
    let e = exponent(n, 1);
    lemma_exponent_doubled(n, 1);
    assert(exponent(2 * n, 1) == e + 1);
    assert((126 + (e + 1)) * pow2(23) == (126 + e) * pow2(23) + pow2(23)) by (nonlinear_arith);
    if e <= 22 {
        lemma_pow2_unfold((23 - e) as nat);
        let p = pow2((22 - e) as nat);
        assert((2 * n) * p == n * (2 * p)) by (nonlinear_arith);
    } else if e == 23 {
        lemma_rounded_doubled(n, 1);
        assert(n * 1 == n);
    } else {
        lemma_pow2_unfold((e + 1 - 23) as nat);
        lemma_pow2_pos((e - 23) as nat);
        lemma_rounded_doubled(n, pow2((e - 23) as nat));
    }
    let p = pow2((23 - e) as nat);
    assert((n + 1) * p == n * p + p) by (nonlinear_arith);
}

} // verus!
