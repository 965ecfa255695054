//! Arithmetic in doubles that comes out as it does in whole numbers.
use crate::double::{
    at_least_pow2, encode, exponent, integer_part, is_finite, is_neg, is_scaled,
    lemma_encode_parts, lemma_encoded, lemma_floored,
    lemma_fits_53, lemma_floor_log2, lemma_full_53, lemma_log2, lemma_nearest_bounds,
    lemma_round_exact, nearest_int, round, significand, units, Double,
};
use vstd::arithmetic::div_mod;
use vstd::arithmetic::power2;
use vstd::prelude::*;

verus! {

// ---- numbers with few binary places --------------------------------------

/// Whether a number is `n / 2^s`.
pub open spec fn stands_for(x: Double, n: nat, s: nat) -> bool {
    &&& is_finite(x)
    &&& !is_neg(x)
    &&& exponent(x) + s <= 0
    &&& significand(x) == n * power2::pow2((-(exponent(x) + s)) as nat)
}

/// What has up to 53 bits is not rounded.
pub proof fn lemma_rounded(a: nat, e: int, n: nat, s: nat)
    requires
        n < 0x20_0000_0000_0000,
        s <= 1000,
        e + s <= 0,
        a == n * power2::pow2((-(e + s)) as nat),
    ensures
        stands_for(round(false, a, 1, e), n, s),
        n > 0 ==> 0x10_0000_0000_0000 <= significand(round(false, a, 1, e))
            < 0x20_0000_0000_0000,
        n == 0 ==> exponent(round(false, a, 1, e)) == -1074,
        n > 0 ==> is_finite(round(true, a, 1, e)) && is_neg(round(true, a, 1, e)) && significand(
            round(true, a, 1, e),
        ) > 0,
{
    let f = (-(e + s)) as nat;
    if n == 0 {
        assert(a == 0) by (nonlinear_arith)
            requires
                a == n * power2::pow2(f),
                n == 0,
        ;
        reveal(round);
        let z = encode(false, 0, -1074);
        assert(z.bits == 0);
        let p = power2::pow2((1074 - s) as nat);
        assert(0 * p == 0);
    } else {
        power2::lemma2_to64();
        power2::lemma2_to64_rest();
        let j = lemma_log2(n);
        if j > 52 {
            if j > 53 {
                power2::lemma_pow2_strictly_increases(53, j);
            }
        }
        let i = (52 - j) as nat;
        let p = power2::pow2(i);
        power2::lemma_pow2_pos(i);
        power2::lemma_pow2_adds(j, i);
        power2::lemma_pow2_adds(j + 1, i);
        let m = n * p;
        let lo = power2::pow2(j);
        let hi = power2::pow2(j + 1);
        assert(lo * p <= m < hi * p) by (nonlinear_arith)
            requires
                lo <= n < hi,
                p > 0,
                m == n * p,
        ;
        let k = j - 52 - s;
        let u = k - e;
        assert(u == f - i);
        assert(is_scaled(a, 1, m, u)) by {
            if u >= 0 {
                let w = power2::pow2(u as nat);
                power2::lemma_pow2_adds(i, u as nat);
                assert(n * (p * w) == 1 * m * w) by (nonlinear_arith)
                    requires
                        m == n * p,
                ;
            } else {
                let w = power2::pow2((-u) as nat);
                let v = power2::pow2(f);
                power2::lemma_pow2_adds(f, (-u) as nat);
                assert((n * v) * w == 1 * (n * (v * w))) by (nonlinear_arith);
            }
        }
        lemma_round_exact(false, a, 1, e, m, k);
        lemma_round_exact(true, a, 1, e, m, k);
        lemma_encoded(false, m, k);
        lemma_encoded(true, m, k);
    }
}

/// A whole number.
pub proof fn lemma_whole(n: nat)
    requires
        n < 0x20_0000_0000_0000,
    ensures
        stands_for(Double::of(n as int), n, 0),
        n > 0 ==> 0x10_0000_0000_0000 <= significand(Double::of(n as int)) < 0x20_0000_0000_0000,
{
    power2::lemma2_to64();
    assert(n * power2::pow2(0) == n);
    lemma_rounded(n, 0, n, 0);
}

/// A whole number in halves.
pub proof fn lemma_in_halves(n: nat)
    requires
        n < 0x10_0000_0000_0000,
    ensures
        stands_for(Double::of(n as int), 2 * n, 1),
{
    power2::lemma2_to64();
    let x = Double::of(n as int);
    assert(n * power2::pow2(0) == n);
    lemma_rounded(n, 0, n, 0);
    let i = (-exponent(x)) as nat;
    power2::lemma_pow2_adds(1, (i - 1) as nat);
    let v = power2::pow2((i - 1) as nat);
    assert(n * (2 * v) == (2 * n) * v) by (nonlinear_arith);
}

/// One half.
pub proof fn lemma_half()
    ensures
        stands_for(Double::frac(5, 10), 1, 1),
{
    power2::lemma2_to64_rest();
    assert(is_scaled(5, 10, 0x10_0000_0000_0000, -53));
    lemma_round_exact(false, 5, 10, 0, 0x10_0000_0000_0000, -53);
    lemma_encoded(false, 0x10_0000_0000_0000, -53);
}

pub proof fn lemma_part_of_sum(a: Double, n: nat, s: nat, e: int)
    requires
        stands_for(a, n, s),
        e <= exponent(a),
    ensures
        significand(a) * power2::pow2((exponent(a) - e) as nat) == n * power2::pow2(
            (-(e + s)) as nat,
        ),
{
    let f = (-(exponent(a) + s)) as nat;
    let g = (exponent(a) - e) as nat;
    power2::lemma_pow2_adds(f, g);
    let x = power2::pow2(f);
    let y = power2::pow2(g);
    assert((n * x) * y == n * (x * y)) by (nonlinear_arith);
}

pub proof fn lemma_sum(a: Double, n: nat, b: Double, m: nat, s: nat)
    requires
        stands_for(a, n, s),
        stands_for(b, m, s),
        0 < n + m < 0x20_0000_0000_0000,
        s <= 1000,
    ensures
        stands_for(a.plus(b), n + m, s),
{
    reveal(Double::plus);
    let e = if exponent(a) <= exponent(b) {
        exponent(a)
    } else {
        exponent(b)
    };
    lemma_part_of_sum(a, n, s, e);
    lemma_part_of_sum(b, m, s, e);
    let p = power2::pow2((-(e + s)) as nat);
    power2::lemma_pow2_pos((-(e + s)) as nat);
    assert(n * p + m * p == (n + m) * p && (n + m) * p > 0) by (nonlinear_arith)
        requires
            n + m > 0,
            p > 0,
    ;
    lemma_rounded(((n + m) * p) as nat, e, n + m, s);
}

pub proof fn lemma_product(a: Double, n: nat, s: nat, b: Double, m: nat)
    requires
        stands_for(a, n, s),
        stands_for(b, m, 0),
        s <= 1000,
        n * m < 0x20_0000_0000_0000,
    ensures
        stands_for(a.times(b), n * m, s),
        n * m > 0 ==> 0x10_0000_0000_0000 <= significand(a.times(b)) < 0x20_0000_0000_0000,
{
    reveal(Double::times);
    let f = (-(exponent(a) + s)) as nat;
    let g = (-exponent(b)) as nat;
    power2::lemma_pow2_adds(f, g);
    let x = power2::pow2(f);
    let y = power2::pow2(g);
    assert((n * x) * (m * y) == (n * m) * (x * y)) by (nonlinear_arith);
    lemma_rounded(
        (significand(a) * significand(b)) as nat,
        exponent(a) + exponent(b),
        n * m,
        s,
    );
}

/// The nearest integer to a quotient that lies far enough below the next
/// multiple.
proof fn lemma_between(a: nat, b: nat, n: nat, g: nat, w: nat)
    requires
        b > 0,
        g > 0,
        2 * w > g,
        a * g == n * w * b,
    ensures
        (n / g) * w <= nearest_int(a, b) < (n / g + 1) * w,
{
    let f = n / g;
    let r = n % g;
    let m = nearest_int(a, b);
    let q = a / b;
    lemma_nearest_bounds(a, b);
    div_mod::lemma_fundamental_div_mod(a as int, b as int);
    div_mod::lemma_fundamental_div_mod(n as int, g as int);
    let rest = a % b;
    assert(a == b * q + rest && rest < b);
    assert(n == g * f + r && r < g);
    let fw = f * w;
    let gb = g * b;
    assert(a * g == fw * gb + r * (w * b)) by (nonlinear_arith)
        requires
            a * g == n * w * b,
            n == g * f + r,
            fw == f * w,
            gb == g * b,
    ;
    let wb = w * b;
    assert(a >= fw * b) by (nonlinear_arith)
        requires
            a * g == fw * gb + r * wb,
            gb == g * b,
            r >= 0,
            wb >= 0,
            g > 0,
    ;
    assert(q >= fw) by (nonlinear_arith)
        requires
            a >= fw * b,
            a == b * q + rest,
            rest < b,
            b > 0,
    ;
    let top = (f + 1) * w;
    assert(top == fw + w) by (nonlinear_arith)
        requires
            top == (f + 1) * w,
            fw == f * w,
    ;
    if m >= top {
        assert(2 * (top * b) <= 2 * a + b) by (nonlinear_arith)
            requires
                2 * (m * b) <= 2 * a + b,
                m >= top,
                b > 0,
        ;
        assert(2 * (top * b) * g <= 2 * (a * g) + gb) by (nonlinear_arith)
            requires
                2 * (top * b) <= 2 * a + b,
                gb == g * b,
                g > 0,
        ;
        assert(2 * (top * b) * g == 2 * (fw * gb) + 2 * (g * wb)) by (nonlinear_arith)
            requires
                top == fw + w,
                gb == g * b,
                wb == w * b,
        ;
        assert(g * wb >= r * wb + wb) by (nonlinear_arith)
            requires
                r + 1 <= g,
                wb >= 0,
        ;
        assert(2 * wb <= gb);
        assert(2 * wb > gb) by (nonlinear_arith)
            requires
                wb == w * b,
                gb == g * b,
                2 * w > g,
                b > 0,
        ;
    }
}

proof fn lemma_whole_part(m: nat, w: nat, f: nat)
    requires
        w > 0,
        f * w <= m < (f + 1) * w,
    ensures
        m / w == f,
{
    let r = m - f * w;
    assert((f + 1) * w == f * w + w) by (nonlinear_arith);
    div_mod::lemma_fundamental_div_mod_converse(m as int, w as int, f as int, r);
}

/// The significand of a number that is not zero shifts an integer by 52 places
/// at most.
proof fn lemma_shift(x: Double, n: nat, s: nat)
    requires
        stands_for(x, n, s),
        n > 0,
        significand(x) < 0x20_0000_0000_0000,
    ensures
        -(exponent(x) + s) < 53,
{
    let i = (-(exponent(x) + s)) as nat;
    let p = power2::pow2(i);
    power2::lemma_pow2_pos(i);
    power2::lemma2_to64_rest();
    if i >= 53 {
        if i > 53 {
            power2::lemma_pow2_strictly_increases(53, i);
        }
        let z = significand(x);
        assert(z >= p) by (nonlinear_arith)
            requires
                z == n * p,
                n >= 1,
                p > 0,
        ;
    }
}

/// A quotient without its places after the point.
pub proof fn lemma_quotient(x: Double, n: nat, s: nat, y: Double, d: nat)
    requires
        stands_for(x, n, s),
        stands_for(y, d, 0),
        n < 0x20_0000_0000_0000,
        d > 0,
        s <= 100,
        n > 0 ==> 0x10_0000_0000_0000 <= significand(x) < 0x20_0000_0000_0000,
        0x10_0000_0000_0000 <= significand(y) < 0x20_0000_0000_0000,
    ensures
        is_finite(x.over(y)),
        !is_neg(x.over(y)),
        integer_part(x.over(y)) == n / (d * power2::pow2(s)),
        stands_for(x.over(y).floored(), n / (d * power2::pow2(s)), 0),
{
    reveal(Double::over);
    reveal(Double::floored);
    power2::lemma2_to64();
    power2::lemma2_to64_rest();
    power2::lemma_pow2_pos(s);
    let g = d * power2::pow2(s);
    assert(g > 0) by (nonlinear_arith)
        requires
            g == d * power2::pow2(s),
            d > 0,
            power2::pow2(s) > 0,
    ;
    let a = significand(x) as nat;
    let b = significand(y) as nat;
    let ex = exponent(x);
    let ey = exponent(y);
    let e = ex - ey;
    let q = x.over(y);
    assert(q == round(false, a, b, e));
    let i = (-(ex + s)) as nat;
    let pi = power2::pow2(i);
    if n == 0 {
        assert(a == 0) by (nonlinear_arith)
            requires
                a == n * pi,
                n == 0,
        ;
        assert(q == encode(false, 0, -1074)) by {
            reveal(round);
        }
        assert(q.bits == 0);
        power2::lemma_pow2_pos(1074);
        div_mod::lemma_basic_div(0, power2::pow2(1074) as int);
        div_mod::lemma_basic_div(0, g as int);
        assert(n / g == 0);
        lemma_whole(0);
    } else {
        lemma_shift(x, n, s);
        lemma_shift(y, d, 0);
        let t: int = if a >= b {
            0
        } else {
            -1
        };
        let p0 = power2::pow2(0);
        let p1 = power2::pow2(1);
        assert(b * p0 == b && b * p1 == 2 * b && a * p1 == 2 * a) by (nonlinear_arith)
            requires
                p0 == 1,
                p1 == 2,
        ;
        assert(at_least_pow2(a, b, t) && !at_least_pow2(a, b, t + 1));
        lemma_floor_log2(a, b, t);
        let k = e + t - 52;
        let h = power2::pow2((52 - t) as nat);
        let c = a * h;
        let m = nearest_int(c, b);
        lemma_full_53(a, b, t);
        lemma_fits_53(a, b, t, t - 52);
        lemma_nearest_bounds(c, b);
        div_mod::lemma_fundamental_div_mod(c as int, b as int);
        let z = c / b;
        let rest = c % b;
        assert(0x10_0000_0000_0000 <= z < 0x20_0000_0000_0000) by (nonlinear_arith)
            requires
                c == b * z + rest,
                0 <= rest < b,
                c >= 0x10_0000_0000_0000 * b,
                c < b * 0x20_0000_0000_0000,
        ;
        assert(k <= 0) by {
            lemma_not_past_53(n, d, s, x, y);
        }
        assert(q == encode(false, m, k)) by {
            reveal(round);
        }
        lemma_encoded(false, m, k);
        let w = (-k) as nat;
        let pw = power2::pow2(w);
        power2::lemma_pow2_pos(w);
        let f = n / g;
        assert(c * g == n * pw * b) by {
            let j = (-ey) as nat;
            let ps = power2::pow2(s);
            let pj = power2::pow2(j);
            power2::lemma_pow2_adds(i, (52 - t) as nat);
            power2::lemma_pow2_adds(i + (52 - t) as nat, s);
            power2::lemma_pow2_adds(w, j);
            assert(i + (52 - t) + s == w + j);
            assert((pi * h) * ps == pw * pj);
            assert(((n * pi) * h) * (d * ps) == n * pw * (d * pj)) by (nonlinear_arith)
                requires
                    (pi * h) * ps == pw * pj,
            ;
        }
        assert(2 * pw > g) by (nonlinear_arith)
            requires
                c * g == n * pw * b,
                c >= 0x10_0000_0000_0000 * b,
                n < 0x20_0000_0000_0000,
                b > 0,
                g > 0,
                pw > 0,
        ;
        lemma_between(c, b, n, g, pw);
        lemma_floor_of(q, m, k, f);
    }
}

/// The quotient of numbers of up to 53 bits has no more than 53 places before
/// the point.
proof fn lemma_not_past_53(n: nat, d: nat, s: nat, x: Double, y: Double)
    requires
        stands_for(x, n, s),
        stands_for(y, d, 0),
        d > 0,
        significand(y) < 0x20_0000_0000_0000,
    ensures
        exponent(x) - exponent(y) <= 52,
{
    lemma_shift(y, d, 0);
}

/// The floor of a rounded quotient.
proof fn lemma_floor_of(q: Double, m: nat, k: int, f: nat)
    requires
        k <= 0,
        k >= -1000,
        q == encode(false, m, k),
        0x10_0000_0000_0000 <= m <= 0x20_0000_0000_0000,
        f < 0x20_0000_0000_0000,
        f * power2::pow2((-k) as nat) <= m < (f + 1) * power2::pow2((-k) as nat),
    ensures
        integer_part(q) == f,
        stands_for(q.floored(), f, 0),
{
    reveal(Double::floored);
    power2::lemma2_to64();
    lemma_encoded(false, m, k);
    lemma_whole(f);
    let w = (-k) as nat;
    let pw = power2::pow2(w);
    power2::lemma_pow2_pos(w);
    if m < 0x20_0000_0000_0000 {
        if w == 0 {
            assert(m == f) by (nonlinear_arith)
                requires
                    f * pw <= m < (f + 1) * pw,
                    pw == 1,
            ;
            assert(m * pw == m) by (nonlinear_arith)
                requires
                    pw == 1,
            ;
        } else {
            lemma_whole_part(m, pw, f);
        }
    } else {
        let half = 0x10_0000_0000_0000nat;
        if w == 0 {
            assert(f >= m) by (nonlinear_arith)
                requires
                    f * pw <= m < (f + 1) * pw,
                    pw == 1,
            ;
        } else {
            let v = power2::pow2((w - 1) as nat);
            power2::lemma_pow2_pos((w - 1) as nat);
            power2::lemma_pow2_adds(1, (w - 1) as nat);
            assert(f * v <= half < (f + 1) * v) by (nonlinear_arith)
                requires
                    pw == 2 * v,
                    f * pw <= 2 * half < (f + 1) * pw,
            ;
            lemma_whole_part(half, v, f);
            if w == 1 {
                assert(half == f) by (nonlinear_arith)
                    requires
                        f * v <= half < (f + 1) * v,
                        v == 1,
                ;
                assert(half * v == half) by (nonlinear_arith)
                    requires
                        v == 1,
                ;
            }
        }
    }
}

/// The difference of two whole numbers is zero where they are the same.
pub proof fn lemma_difference(a: Double, n: nat, b: Double, m: nat)
    requires
        stands_for(a, n, 0),
        stands_for(b, m, 0),
        m <= n < 0x20_0000_0000_0000,
    ensures
        a.minus(b).same_value(Double::of(0)) <==> n == m,
{
    reveal(Double::plus);
    reveal(Double::same_value);
    let c = b.negated();
    assert(is_neg(c) && is_finite(c) && exponent(c) == exponent(b) && significand(c)
        == significand(b));
    let e = if exponent(a) <= exponent(b) {
        exponent(a)
    } else {
        exponent(b)
    };
    lemma_part_of_sum(a, n, 0, e);
    lemma_part_of_sum(b, m, 0, e);
    let p = power2::pow2((-e) as nat);
    power2::lemma_pow2_pos((-e) as nat);
    assert(n * p - m * p == (n - m) * p && ((n - m) * p > 0 <==> n > m) && (n == m ==> (n - m) * p
        == 0)) by (nonlinear_arith)
        requires
            n >= m,
            p > 0,
    ;
    lemma_whole(0);
    let zero = Double::of(0);
    let u = power2::pow2((exponent(zero) + 1074) as nat);
    let v = power2::pow2((-exponent(zero)) as nat);
    assert(0 * u == 0 && 0 * v == 0) by (nonlinear_arith);
    assert(units(zero) == 0);
    if n > m {
        let r = a.minus(b);
        let d = (n - m) as nat;
        lemma_rounded((d * p) as nat, e, d, 0);
        let z = significand(r);
        let u = power2::pow2((exponent(r) + 1074) as nat);
        power2::lemma_pow2_pos((exponent(r) + 1074) as nat);
        assert(z * u > 0) by (nonlinear_arith)
            requires
                z > 0,
                u > 0,
        ;
    }
}

/// The floor of a whole number is that number.
pub proof fn lemma_floor_of_whole(x: Double, n: nat)
    requires
        stands_for(x, n, 0),
        n < 0x20_0000_0000_0000,
    ensures
        x.floored() == Double::of(n as int),
{
    reveal(Double::floored);
    power2::lemma2_to64();
    let i = (-exponent(x)) as nat;
    let p = power2::pow2(i);
    power2::lemma_pow2_pos(i);
    if i > 0 {
        div_mod::lemma_div_multiples_vanish(n as int, p as int);
        assert(n * p == p * n) by (nonlinear_arith);
    } else {
        assert(n * p == n) by (nonlinear_arith)
            requires
                p == 1,
        ;
        let y = Double::of(n as int);
        lemma_whole(n);
        assert(n >= 0x10_0000_0000_0000);
        let j = (-exponent(y)) as nat;
        let v = power2::pow2(j);
        power2::lemma_pow2_pos(j);
        if j > 0 {
            if j > 1 {
                power2::lemma_pow2_strictly_increases(1, j);
            }
            let z = significand(y);
            assert(z >= 2 * n) by (nonlinear_arith)
                requires
                    z == n * v,
                    v >= 2,
            ;
        }
        assert(n * v == n) by (nonlinear_arith)
            requires
                v == 1,
        ;
        lemma_encode_parts(x);
        lemma_encode_parts(y);
    }
}

// ---- whole numbers as doubles --------------------------------------------

/// A whole number has one double.
pub proof fn lemma_one_double(x: Double, n: nat)
    requires
        stands_for(x, n, 0),
        0 < n < 0x20_0000_0000_0000,
    ensures
        x == Double::of(n as int),
{
    let y = Double::of(n as int);
    lemma_whole(n);
    lemma_encode_parts(x);
    lemma_encode_parts(y);
    lemma_shift(x, n, 0);
    lemma_shift(y, n, 0);
    let f = (-exponent(x)) as nat;
    let g = (-exponent(y)) as nat;
    let p = power2::pow2(f);
    let q = power2::pow2(g);
    if f < g {
        lemma_twice(n, f, g);
    } else if g < f {
        lemma_twice(n, g, f);
    }
}

/// One more binary place at least doubles a significand.
proof fn lemma_twice(n: nat, f: nat, g: nat)
    requires
        f < g,
    ensures
        n * power2::pow2(g) >= 2 * (n * power2::pow2(f)),
{
    power2::lemma_pow2_adds(f, (g - f) as nat);
    let h = (g - f) as nat;
    power2::lemma2_to64();
    if h > 1 {
        power2::lemma_pow2_strictly_increases(1, h);
    }
    let p = power2::pow2(f);
    let w = power2::pow2(h);
    assert(n * (p * w) >= 2 * (n * p)) by (nonlinear_arith)
        requires
            w >= 2,
            n >= 0,
            p >= 0,
    ;
}

/// Whole numbers add up.
pub proof fn lemma_whole_sum(a: nat, b: nat)
    requires
        a + b < 0x20_0000_0000_0000,
    ensures
        Double::of(a as int).plus(Double::of(b as int)) == Double::of((a + b) as int),
{
    let x = Double::of(a as int);
    let y = Double::of(b as int);
    lemma_whole(a);
    lemma_whole(b);
    if a + b > 0 {
        lemma_sum(x, a, y, b, 0);
        lemma_one_double(x.plus(y), a + b);
    } else {
        reveal(Double::plus);
        let e = exponent(x);
        let p = power2::pow2((-e) as nat);
        assert(0 * p == 0) by (nonlinear_arith);
        lemma_part_of_sum(x, 0, 0, e);
        lemma_part_of_sum(y, 0, 0, e);
    }
}

/// Whole numbers multiply.
pub proof fn lemma_whole_product(a: nat, b: nat)
    requires
        a < 0x20_0000_0000_0000,
        b < 0x20_0000_0000_0000,
        0 < a * b < 0x20_0000_0000_0000,
    ensures
        Double::of(a as int).times(Double::of(b as int)) == Double::of((a * b) as int),
{
    lemma_whole(a);
    lemma_whole(b);
    lemma_product(Double::of(a as int), a, 0, Double::of(b as int), b);
    lemma_one_double(Double::of(a as int).times(Double::of(b as int)), a * b);
}

proof fn lemma_whole_units(a: nat)
    requires
        a < 0x20_0000_0000_0000,
    ensures
        units(Double::of(a as int)) == a * power2::pow2(1074),
        is_finite(Double::of(a as int)),
        !is_neg(Double::of(a as int)),
{
    let x = Double::of(a as int);
    lemma_whole(a);
    lemma_encode_parts(x);
    let f = (-exponent(x)) as nat;
    let g = (exponent(x) + 1074) as nat;
    power2::lemma_pow2_adds(f, g);
    let p = power2::pow2(f);
    let q = power2::pow2(g);
    assert((a * p) * q == a * (p * q)) by (nonlinear_arith);
}

/// Whole numbers are ordered as doubles as they are.
pub proof fn lemma_whole_order(a: nat, b: nat)
    requires
        a < 0x20_0000_0000_0000,
        b < 0x20_0000_0000_0000,
    ensures
        Double::of(a as int).below(Double::of(b as int)) <==> a < b,
        Double::of(a as int).at_most(Double::of(b as int)) <==> a <= b,
        Double::of(a as int).same_value(Double::of(b as int)) <==> a == b,
{
    reveal(Double::below);
    reveal(Double::same_value);
    lemma_whole_units(a);
    lemma_whole_units(b);
    let w = power2::pow2(1074);
    power2::lemma_pow2_pos(1074);
    assert(a * w < b * w <==> a < b) by (nonlinear_arith)
        requires
            w > 0,
    ;
    assert(a * w == b * w <==> a == b) by (nonlinear_arith)
        requires
            w > 0,
    ;
}

/// A fraction from one half to one as a double.
pub proof fn lemma_large_fraction(n: nat, d: nat)
    requires
        0 < n < d <= 2 * n,
        nearest_int(n * 0x20_0000_0000_0000, d) < 0x20_0000_0000_0000,
    ensures
        is_finite(Double::frac(n, d)),
        !is_neg(Double::frac(n, d)),
        units(Double::frac(n, d)) == nearest_int(n * 0x20_0000_0000_0000, d) * power2::pow2(1021),
{
    reveal(round);
    power2::lemma2_to64();
    power2::lemma2_to64_rest();
    assert(n * power2::pow2(1) == 2 * n) by (nonlinear_arith)
        requires
            power2::pow2(1) == 2,
    ;
    assert(at_least_pow2(n, d, -1));
    assert(!at_least_pow2(n, d, 0)) by {
        assert(d * power2::pow2(0) == d);
    }
    lemma_floor_log2(n, d, -1);
    let m = nearest_int(n * 0x20_0000_0000_0000, d);
    lemma_nearest_bounds(n * 0x20_0000_0000_0000, d);
    assert(m >= 0x10_0000_0000_0000) by {
        let a = n * 0x20_0000_0000_0000;
        assert(a / d >= 0x10_0000_0000_0000) by (nonlinear_arith)
            requires
                a == n * 0x20_0000_0000_0000,
                0 < d <= 2 * n,
        ;
    }
    lemma_encoded(false, m, -53);
}

/// Fractions that the rules use, in order, below 1.
pub proof fn lemma_fractions_in_order()
    ensures
        Double::frac(7, 10).below(Double::frac(9, 10)),
        Double::frac(9, 10).below(Double::frac(95, 100)),
        Double::frac(95, 100).below(Double::frac(99, 100)),
        Double::frac(95, 100).below(Double::of(1)),
        !Double::frac(95, 100).below(Double::frac(9, 10)),
        !Double::frac(7, 10).below(Double::of(0)),
        !Double::frac(95, 100).below(Double::of(0)),
{
    reveal(Double::below);
    let w = power2::pow2(1021);
    power2::lemma_pow2_pos(1021);
    power2::lemma_pow2_adds(53, 1021);
    power2::lemma2_to64_rest();
    lemma_large_fraction(7, 10);
    lemma_large_fraction(9, 10);
    lemma_large_fraction(95, 100);
    lemma_large_fraction(99, 100);
    lemma_whole_units(1);
    lemma_whole_units(0);
    let a = nearest_int(7 * 0x20_0000_0000_0000, 10);
    let b = nearest_int(9 * 0x20_0000_0000_0000, 10);
    let c = nearest_int(95 * 0x20_0000_0000_0000, 100);
    let d = nearest_int(99 * 0x20_0000_0000_0000, 100);
    assert(0 < a < b < c < d < 0x20_0000_0000_0000);
    assert(0 < a * w < b * w < c * w < d * w < 0x20_0000_0000_0000 * w) by (nonlinear_arith)
        requires
            0 < a < b < c < d < 0x20_0000_0000_0000,
            w > 0,
    ;
}

/// What is left of a whole number is not below nothing exactly if no more is
/// taken than there was.
pub proof fn lemma_whole_rest(a: nat, b: nat)
    requires
        a < 0x20_0000_0000_0000,
        b < 0x20_0000_0000_0000,
    ensures
        Double::of(0).at_most(Double::of(a as int).minus(Double::of(b as int))) <==> a >= b,
        Double::of(a as int).minus(Double::of(b as int)).below(Double::of(0)) <==> a < b,
{
    reveal(Double::plus);
    reveal(Double::below);
    reveal(Double::same_value);
    let x = Double::of(a as int);
    let y = Double::of(b as int);
    lemma_whole(a);
    lemma_whole(b);
    lemma_whole(0);
    lemma_whole_units(0);
    let c = y.negated();
    assert(is_neg(c) && is_finite(c) && exponent(c) == exponent(y) && significand(c)
        == significand(y));
    let e = if exponent(x) <= exponent(y) {
        exponent(x)
    } else {
        exponent(y)
    };
    lemma_part_of_sum(x, a, 0, e);
    lemma_part_of_sum(y, b, 0, e);
    let p = power2::pow2((-e) as nat);
    power2::lemma_pow2_pos((-e) as nat);
    assert(a * p - b * p == (a - b) * p && ((a - b) * p > 0 <==> a > b) && ((a - b) * p < 0
        <==> a < b)) by (nonlinear_arith)
        requires
            p > 0,
    ;
    let w = power2::pow2(1074);
    assert(0 * w == 0) by (nonlinear_arith);
    let r = x.minus(y);
    if a > b {
        let d = (a - b) as nat;
        lemma_rounded((d * p) as nat, e, d, 0);
        lemma_positive_significand(r);
    } else if a < b {
        let d = (b - a) as nat;
        assert(d * p == -((a - b) * p)) by (nonlinear_arith)
            requires
                d == b - a,
        ;
        lemma_rounded((d * p) as nat, e, d, 0);
        lemma_positive_significand(r);
    } else {
        assert(r == Double::of(0));
    }
}

proof fn lemma_positive_significand(r: Double)
    requires
        significand(r) > 0,
    ensures
        is_neg(r) ==> units(r) < 0,
        !is_neg(r) ==> units(r) > 0,
{
    let z = significand(r);
    let u = power2::pow2((exponent(r) + 1074) as nat);
    power2::lemma_pow2_pos((exponent(r) + 1074) as nat);
    assert(z * u > 0) by (nonlinear_arith)
        requires
            z > 0,
            u > 0,
    ;
}

/// A whole number divided by another, without the places after the point.
pub proof fn lemma_whole_quotient(n: nat, d: nat)
    requires
        n < 0x20_0000_0000_0000,
        0 < d < 0x20_0000_0000_0000,
    ensures
        Double::of(n as int).over(Double::of(d as int)).floored().truncated() == n / d,
        stands_for(Double::of(n as int).over(Double::of(d as int)).floored(), n / d, 0),
{
    let x = Double::of(n as int);
    let y = Double::of(d as int);
    lemma_whole(n);
    lemma_whole(d);
    lemma_quotient(x, n, 0, y, d);
    power2::lemma2_to64();
    assert(d * power2::pow2(0) == d);
    assert(n / d <= n) by (nonlinear_arith)
        requires
            d > 0,
    ;
    lemma_floored(x.over(y));
}

/// A whole number less a smaller one.
pub proof fn lemma_whole_difference(a: nat, b: nat)
    requires
        b < a < 0x20_0000_0000_0000,
    ensures
        Double::of(a as int).minus(Double::of(b as int)) == Double::of((a - b) as int),
{
    reveal(Double::plus);
    let x = Double::of(a as int);
    let y = Double::of(b as int);
    lemma_whole(a);
    lemma_whole(b);
    let c = y.negated();
    assert(is_neg(c) && is_finite(c) && exponent(c) == exponent(y) && significand(c)
        == significand(y));
    let e = if exponent(x) <= exponent(y) {
        exponent(x)
    } else {
        exponent(y)
    };
    lemma_part_of_sum(x, a, 0, e);
    lemma_part_of_sum(y, b, 0, e);
    let p = power2::pow2((-e) as nat);
    power2::lemma_pow2_pos((-e) as nat);
    assert(a * p - b * p == (a - b) * p && (a - b) * p > 0) by (nonlinear_arith)
        requires
            p > 0,
            a > b,
    ;
    let d = (a - b) as nat;
    lemma_rounded((d * p) as nat, e, d, 0);
    lemma_one_double(x.minus(y), d);
}

/// Nothing is not one or more.
pub proof fn lemma_no_double(x: Double)
    requires
        stands_for(x, 0, 0),
    ensures
        !Double::of(1).at_most(x),
{
    reveal(Double::below);
    reveal(Double::same_value);
    lemma_whole_units(1);
    power2::lemma_pow2_pos(1074);
    let p = power2::pow2((-exponent(x)) as nat);
    let q = power2::pow2((exponent(x) + 1074) as nat);
    assert(0 * p == 0 && 0 * q == 0) by (nonlinear_arith);
}

/// One and a half is not nothing.
pub proof fn lemma_more_than_nothing()
    ensures
        !Double::frac(15, 10).same_value(Double::of(0)),
{
    reveal(Double::same_value);
    power2::lemma2_to64_rest();
    assert(is_scaled(15, 10, 0x18_0000_0000_0000, -52));
    lemma_round_exact(false, 15, 10, 0, 0x18_0000_0000_0000, -52);
    lemma_encoded(false, 0x18_0000_0000_0000, -52);
    lemma_positive_significand(Double::frac(15, 10));
    lemma_whole_units(0);
    let w = power2::pow2(1074);
    assert(0 * w == 0) by (nonlinear_arith);
}

/// Half of a small whole number.
pub proof fn lemma_halved(k: nat)
    requires
        0 < k <= 1000,
    ensures
        stands_for(Double::of(k as int).over(Double::of(2)), k, 1),
{
    reveal(Double::over);
    power2::lemma2_to64();
    power2::lemma2_to64_rest();
    let x = Double::of(k as int);
    let two = Double::of(2);
    lemma_whole(k);
    lemma_whole(2);
    lemma_shift(x, k, 0);
    lemma_shift(two, 2, 0);
    let f = (-exponent(x)) as nat;
    let g = (-exponent(two)) as nat;
    let a = significand(x);
    assert(g == 51) by {
        if g < 51 {
            lemma_twice(2, g, 51);
        } else if g > 51 {
            lemma_twice(2, 51, g);
        }
    }
    let h = 0x10_0000_0000_0000nat;
    assert(significand(two) == h);
    lemma_encode_parts(x);
    let e = exponent(x) - exponent(two);
    assert(is_scaled(a as nat, h, a as nat, -52)) by (nonlinear_arith)
        requires
            power2::pow2(52) == h,
            is_scaled(a as nat, h, a as nat, -52) == ((a as nat) * power2::pow2(52) == h * (
            a as nat)),
    ;
    lemma_round_exact(false, a as nat, h, e, a as nat, e - 52);
    lemma_encoded(false, a as nat, e - 52);
    assert(e - 52 + 1 == exponent(x));
}

/// The product of a whole number and of halves that makes a whole number.
pub proof fn lemma_product_of_halves(a: Double, n: nat, b: Double, m: nat)
    requires
        stands_for(a, n, 0),
        stands_for(b, m, 1),
        0 < n * m < 0x20_0000_0000_0000,
        (n * m) % 2 == 0,
    ensures
        a.times(b) == Double::of(((n * m) / 2) as int),
{
    reveal(Double::times);
    let f = (-exponent(a)) as nat;
    let g = (-(exponent(b) + 1)) as nat;
    power2::lemma_pow2_adds(f, g);
    let x = power2::pow2(f);
    let y = power2::pow2(g);
    assert((n * x) * (m * y) == (n * m) * (x * y)) by (nonlinear_arith);
    let e = exponent(a) + exponent(b);
    let w = (n * m) / 2;
    power2::lemma_pow2_adds(1, f + g);
    power2::lemma2_to64();
    let p = power2::pow2(f + g);
    assert((n * m) * p == w * (2 * p)) by (nonlinear_arith)
        requires
            n * m == 2 * w,
    ;
    lemma_rounded((significand(a) * significand(b)) as nat, e, w, 0);
    lemma_one_double(a.times(b), w);
}

/// What is left where no less is taken than there was is nothing or below.
pub proof fn lemma_nothing_left(a: nat, b: nat)
    requires
        a <= b < 0x20_0000_0000_0000,
    ensures
        Double::of(a as int).minus(Double::of(b as int)).at_most(Double::of(0)),
{
    lemma_whole_rest(a, b);
    if a == b {
        reveal(Double::plus);
        let x = Double::of(a as int);
        lemma_whole(a);
        let c = x.negated();
        assert(is_neg(c) && is_finite(c) && exponent(c) == exponent(x) && significand(c)
            == significand(x));
        lemma_whole_order(0, 0);
        assert(x.minus(x) == Double::of(0));
    }
}

/// A whole number is its own integer part.
pub proof fn lemma_whole_truncated(n: nat)
    requires
        n < 0x20_0000_0000_0000,
    ensures
        Double::of(n as int).truncated() == n,
{
    lemma_whole(n);
    lemma_floor_of_whole(Double::of(n as int), n);
    let x = Double::of(n as int);
    let p = power2::pow2((-exponent(x)) as nat);
    power2::lemma_pow2_pos((-exponent(x)) as nat);
    power2::lemma2_to64();
    assert(integer_part(x) == n) by {
        if exponent(x) < 0 {
            div_mod::lemma_div_multiples_vanish(n as int, p as int);
            assert(n * p == p * n) by (nonlinear_arith);
        } else {
            assert(n * p == n) by (nonlinear_arith)
                requires
                    p == 1,
            ;
        }
    }
    lemma_floored(x);
}

} // verus!
