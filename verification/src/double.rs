//! IEEE 754 double-precision arithmetic on the 64-bit encoding, in integers.
//!
//! Every operation is specified as the exact rational result rounded once, to
//! nearest with ties to even, so a computation written with these operations
//! has one value on every machine.
use vstd::arithmetic::div_mod;
use vstd::arithmetic::power2;
use vstd::prelude::*;

verus! {

/// A double-precision number, held as its 64-bit encoding.
#[derive(Clone, Copy, PartialEq, Eq, Structural, Debug, Hash)]
pub struct Double {
    pub bits: u64,
}

pub const SIGN_BIT: u64 = 0x8000_0000_0000_0000;

/// The encoding used for every NaN that an operation produces.
pub const NAN_BITS: u64 = 0x7ff8_0000_0000_0000;

// ---- the value of an encoding -------------------------------------------

/// The encoding without its sign.
pub open spec fn magnitude_bits(d: Double) -> int {
    d.bits as int % 0x8000_0000_0000_0000
}

pub open spec fn is_neg(d: Double) -> bool {
    d.bits >= 0x8000_0000_0000_0000
}

pub open spec fn is_nan(d: Double) -> bool {
    magnitude_bits(d) > 0x7ff0_0000_0000_0000
}

pub open spec fn is_inf(d: Double) -> bool {
    magnitude_bits(d) == 0x7ff0_0000_0000_0000
}

pub open spec fn is_finite(d: Double) -> bool {
    magnitude_bits(d) < 0x7ff0_0000_0000_0000
}

/// The integer significand of a finite number: its magnitude is
/// `significand * 2^exponent`.
pub open spec fn significand(d: Double) -> int {
    let m = magnitude_bits(d);
    if m < 0x0010_0000_0000_0000 {
        m
    } else {
        0x0010_0000_0000_0000 + m % 0x0010_0000_0000_0000
    }
}

/// The power of two that weighs the last bit of the significand.
pub open spec fn exponent(d: Double) -> int {
    let m = magnitude_bits(d);
    if m < 0x0010_0000_0000_0000 {
        -1074
    } else {
        m / 0x0010_0000_0000_0000 - 1075
    }
}

/// The value of a number in units of `2^-1074`, the smallest positive one.
/// Infinities count as the next step past the largest finite numbers.
pub open spec fn units(d: Double) -> int {
    let m = significand(d) * power2::pow2((exponent(d) + 1074) as nat);
    if is_neg(d) {
        -m
    } else {
        m
    }
}

// ---- rounding ------------------------------------------------------------

/// `n / d >= 2^t`.
pub open spec fn at_least_pow2(n: nat, d: nat, t: int) -> bool {
    if t >= 0 {
        n >= d * power2::pow2(t as nat)
    } else {
        n * power2::pow2((-t) as nat) >= d
    }
}

/// The `t` with `2^t <= n / d < 2^(t + 1)`.
pub open spec fn floor_log2(n: nat, d: nat) -> int {
    choose|t: int| #[trigger] at_least_pow2(n, d, t) && !at_least_pow2(n, d, t + 1)
}

/// `a / b` rounded to the nearest integer, a tie to the even one.
pub open spec fn nearest_int(a: nat, b: nat) -> nat {
    let q = a / b;
    let r = a % b;
    if 2 * r > b || (2 * r == b && q % 2 == 1) {
        q + 1
    } else {
        q
    }
}

/// `n / d` in units of `2^s`, rounded to the nearest integer.
pub open spec fn nearest_multiple(n: nat, d: nat, s: int) -> nat {
    if s >= 0 {
        nearest_int(n, d * power2::pow2(s as nat))
    } else {
        nearest_int(n * power2::pow2((-s) as nat), d)
    }
}

/// The encoding of `(-1)^neg * m * 2^k` for `m <= 2^53` and
/// `-1074 <= k <= 971`, where `k == -1074` or `m >= 2^52`. A carry out of the
/// significand runs into the exponent field, up to infinity.
pub open spec fn encode(neg: bool, m: nat, k: int) -> Double {
    Double {
        bits: ((if neg {
            0x8000_0000_0000_0000int
        } else {
            0
        }) + (k + 1074) * 0x0010_0000_0000_0000 + m) as u64,
    }
}

/// The double nearest to `(-1)^neg * n / d * 2^e`: 53 significant bits, no bit
/// below `2^-1074`, infinity past the largest finite number.
#[verifier::opaque]
pub open spec fn round(neg: bool, n: nat, d: nat, e: int) -> Double {
    if n == 0 {
        encode(neg, 0, -1074)
    } else {
        let k = e + floor_log2(n, d) - 52;
        let k = if k < -1074 {
            -1074
        } else {
            k
        };
        if k > 971 {
            encode(neg, 0x0010_0000_0000_0000, 972)
        } else {
            encode(neg, nearest_multiple(n, d, k - e), k)
        }
    }
}

// ---- the operations ------------------------------------------------------

pub open spec fn nan() -> Double {
    Double { bits: NAN_BITS }
}

pub open spec fn infinity(neg: bool) -> Double {
    Double {
        bits: if neg {
            0xfff0_0000_0000_0000
        } else {
            0x7ff0_0000_0000_0000
        },
    }
}

/// The sum of two finite magnitudes with signs, in units of the smaller
/// exponent.
pub open spec fn exact_sum(a: Double, b: Double) -> int {
    let e = if exponent(a) <= exponent(b) {
        exponent(a)
    } else {
        exponent(b)
    };
    let x = significand(a) * power2::pow2((exponent(a) - e) as nat);
    let y = significand(b) * power2::pow2((exponent(b) - e) as nat);
    (if is_neg(a) {
        -x
    } else {
        x
    }) + (if is_neg(b) {
        -y
    } else {
        y
    })
}

/// The integer part of a finite number, towards zero.
pub open spec fn integer_part(a: Double) -> int {
    let q = if exponent(a) >= 0 {
        significand(a) * power2::pow2(exponent(a) as nat)
    } else {
        significand(a) / (power2::pow2((-exponent(a)) as nat) as int)
    };
    if is_neg(a) {
        -q
    } else {
        q
    }
}

impl Double {
    /// `self + b`.
    #[verifier::opaque]
    pub open spec fn plus(self, b: Double) -> Double {
        if is_nan(self) || is_nan(b) {
            nan()
        } else if is_inf(self) {
            if is_inf(b) && is_neg(self) != is_neg(b) {
                nan()
            } else {
                self
            }
        } else if is_inf(b) {
            b
        } else {
            let e = if exponent(self) <= exponent(b) {
                exponent(self)
            } else {
                exponent(b)
            };
            let s = exact_sum(self, b);
            if s == 0 {
                round(is_neg(self) && is_neg(b), 0, 1, 0)
            } else if s > 0 {
                round(false, s as nat, 1, e)
            } else {
                round(true, (-s) as nat, 1, e)
            }
        }
    }

    /// `-self`.
    pub open spec fn negated(self) -> Double {
        Double {
            bits: if is_neg(self) {
                (self.bits - 0x8000_0000_0000_0000) as u64
            } else {
                (self.bits + 0x8000_0000_0000_0000) as u64
            },
        }
    }

    /// `self - b`.
    pub open spec fn minus(self, b: Double) -> Double {
        self.plus(b.negated())
    }

    /// `self * b`.
    #[verifier::opaque]
    pub open spec fn times(self, b: Double) -> Double {
        let neg = is_neg(self) != is_neg(b);
        if is_nan(self) || is_nan(b) {
            nan()
        } else if is_inf(self) || is_inf(b) {
            if significand(self) == 0 || significand(b) == 0 {
                nan()
            } else {
                infinity(neg)
            }
        } else {
            round(neg, (significand(self) * significand(b)) as nat, 1, exponent(self) + exponent(b))
        }
    }

    /// `self / b`.
    #[verifier::opaque]
    pub open spec fn over(self, b: Double) -> Double {
        let neg = is_neg(self) != is_neg(b);
        if is_nan(self) || is_nan(b) || (is_inf(self) && is_inf(b)) {
            nan()
        } else if is_inf(self) {
            infinity(neg)
        } else if is_inf(b) {
            round(neg, 0, 1, 0)
        } else if significand(b) == 0 {
            if significand(self) == 0 {
                nan()
            } else {
                infinity(neg)
            }
        } else {
            round(neg, significand(self) as nat, significand(b) as nat, exponent(self) - exponent(b))
        }
    }

    /// The largest integer not above `self`.
    #[verifier::opaque]
    pub open spec fn floored(self) -> Double {
        if !is_finite(self) || exponent(self) >= 0 {
            self
        } else {
            let p = power2::pow2((-exponent(self)) as nat) as int;
            let q = significand(self) / p;
            if is_neg(self) && significand(self) % p != 0 {
                round(true, (q + 1) as nat, 1, 0)
            } else {
                round(is_neg(self), q as nat, 1, 0)
            }
        }
    }

    /// The absolute value.
    pub open spec fn magnitude(self) -> Double {
        Double { bits: (self.bits as int % 0x8000_0000_0000_0000) as u64 }
    }

    /// `self < b`; false where either is NaN.
    #[verifier::opaque]
    pub open spec fn below(self, b: Double) -> bool {
        !is_nan(self) && !is_nan(b) && units(self) < units(b)
    }

    /// `self == b` as numbers; false where either is NaN, true of the two zeros.
    #[verifier::opaque]
    pub open spec fn same_value(self, b: Double) -> bool {
        !is_nan(self) && !is_nan(b) && units(self) == units(b)
    }

    /// `self <= b`; false where either is NaN.
    pub open spec fn at_most(self, b: Double) -> bool {
        self.below(b) || self.same_value(b)
    }

    /// The larger of two numbers; the other one where one is NaN.
    pub open spec fn larger(self, b: Double) -> Double {
        if is_nan(self) || self.below(b) {
            b
        } else {
            self
        }
    }

    /// The double nearest to an integer.
    pub open spec fn of(n: int) -> Double {
        if n < 0 {
            round(true, (-n) as nat, 1, 0)
        } else {
            round(false, n as nat, 1, 0)
        }
    }

    /// The double nearest to the decimal or fraction `n / d`: a literal.
    pub open spec fn frac(n: nat, d: nat) -> Double {
        round(false, n, d, 0)
    }

    /// Conversion to a 64-bit integer: towards zero, saturating, NaN to 0.
    #[verifier::opaque]
    pub open spec fn truncated(self) -> i64 {
        if is_nan(self) {
            0
        } else if is_inf(self) {
            if is_neg(self) {
                i64::MIN
            } else {
                i64::MAX
            }
        } else {
            let v = integer_part(self);
            if v < i64::MIN {
                i64::MIN
            } else if v > i64::MAX {
                i64::MAX
            } else {
                v as i64
            }
        }
    }

    /// `self` rounded to 13 decimal places (a tie to the even last digit), then to
    /// the double nearest to that decimal number.
    #[verifier::opaque]
    pub open spec fn decimal13(self) -> Double {
        if !is_finite(self) || exponent(self) >= 0 {
            self
        } else {
            let scaled = (significand(self) * 10_000_000_000_000) as nat;
            round(is_neg(self), nearest_int(scaled, power2::pow2((-exponent(self)) as nat)), 10_000_000_000_000, 0)
        }
    }
}

// ---- facts about rounding ------------------------------------------------

proof fn lemma_times_pow2_0(x: int)
    ensures
        x * power2::pow2(0) == x,
        x * power2::pow2(1) == 2 * x,
{
    power2::lemma2_to64();
    let p = power2::pow2(0);
    let q = power2::pow2(1);
    assert(x * p == x) by (nonlinear_arith)
        requires
            p == 1,
    ;
    assert(x * q == 2 * x) by (nonlinear_arith)
        requires
            q == 2,
    ;
}

proof fn lemma_at_least_step(n: nat, d: nat, t: int)
    requires
        at_least_pow2(n, d, t + 1),
    ensures
        at_least_pow2(n, d, t),
{
    if t >= 0 {
        power2::lemma_pow2_adds(1, t as nat);
        power2::lemma2_to64();
        let p = power2::pow2(t as nat);
        let p1 = power2::pow2((t + 1) as nat);
        assert(p1 == 2 * p);
        assert(d * p1 == 2 * (d * p)) by (nonlinear_arith)
            requires
                p1 == 2 * p,
        ;
        assert(d * p >= 0) by (nonlinear_arith);
    } else if t == -1 {
        lemma_times_pow2_0(d as int);
        lemma_times_pow2_0(n as int);
    } else {
        let a = (-t) as nat;
        let b = (-t - 1) as nat;
        power2::lemma_pow2_adds(1, b);
        power2::lemma2_to64();
        let p = power2::pow2(a);
        let q = power2::pow2(b);
        assert(p == 2 * q);
        assert(n * p == 2 * (n * q)) by (nonlinear_arith)
            requires
                p == 2 * q,
        ;
        assert(n * q >= 0) by (nonlinear_arith);
    }
}

proof fn lemma_at_least_mono(n: nat, d: nat, t: int, u: int)
    requires
        t <= u,
        at_least_pow2(n, d, u),
    ensures
        at_least_pow2(n, d, t),
    decreases u - t,
{
    if t < u {
        lemma_at_least_step(n, d, u - 1);
        lemma_at_least_mono(n, d, t, u - 1);
    }
}

pub proof fn lemma_floor_log2(n: nat, d: nat, t: int)
    requires
        at_least_pow2(n, d, t),
        !at_least_pow2(n, d, t + 1),
    ensures
        floor_log2(n, d) == t,
{
    let u = floor_log2(n, d);
    assert(at_least_pow2(n, d, u) && !at_least_pow2(n, d, u + 1));
    if u < t {
        lemma_at_least_mono(n, d, u + 1, t);
    } else if t < u {
        lemma_at_least_mono(n, d, t + 1, u);
    }
}

/// At a unit of `2^s` with `s >= floor_log2 - 52` the quotient has at most 53
/// bits.
pub proof fn lemma_fits_53(n: nat, d: nat, t: int, s: int)
    requires
        !at_least_pow2(n, d, t + 1),
        s >= t - 52,
    ensures
        s >= 0 ==> n < (d * power2::pow2(s as nat)) * 0x20_0000_0000_0000,
        s < 0 ==> n * power2::pow2((-s) as nat) < d * 0x20_0000_0000_0000,
{
    power2::lemma2_to64();
    assert(power2::pow2(53) == 0x20_0000_0000_0000) by {
        power2::lemma2_to64_rest();
    }
    if at_least_pow2(n, d, s + 53) {
        lemma_at_least_mono(n, d, t + 1, s + 53);
    }
    if s >= 0 {
        power2::lemma_pow2_adds(s as nat, 53);
        let p = power2::pow2(s as nat);
        assert(d * (p * 0x20_0000_0000_0000) == (d * p) * 0x20_0000_0000_0000) by (nonlinear_arith);
    } else if s + 53 >= 0 {
        let a = (s + 53) as nat;
        let b = (-s) as nat;
        power2::lemma_pow2_adds(a, b);
        power2::lemma_pow2_pos(b);
        let pa = power2::pow2(a);
        let pb = power2::pow2(b);
        assert(n * pb < d * (pa * pb)) by (nonlinear_arith)
            requires
                n < d * pa,
                pb > 0,
        ;
    } else {
        let a = (-s - 53) as nat;
        power2::lemma_pow2_adds(a, 53);
        let pa = power2::pow2(a);
        assert(n * (pa * 0x20_0000_0000_0000) < d * 0x20_0000_0000_0000) by (nonlinear_arith)
            requires
                n * pa < d,
        ;
    }
}

proof fn lemma_div_bound(a: nat, b: nat, c: nat)
    requires
        b > 0,
        a < b * c,
    ensures
        a / b < c,
{
    div_mod::lemma_fundamental_div_mod(a as int, b as int);
    let q = a / b;
    assert(q < c) by (nonlinear_arith)
        requires
            b * q <= a,
            a < b * c,
            b > 0,
    ;
}

proof fn lemma_nearest_int_small(a: nat, b: nat)
    requires
        b > 0,
        2 * a < b,
    ensures
        nearest_int(a, b) == 0,
{
    div_mod::lemma_small_mod(a, b);
    div_mod::lemma_basic_div(a as int, b as int);
}

/// `x * 2^s`.
fn scale_up(x: u128, s: u32) -> (r: u128)
    requires
        x * power2::pow2(s as nat) < 0x8000_0000_0000_0000_0000_0000_0000_0000,
    ensures
        r == x * power2::pow2(s as nat),
{
    let mut r: u128 = x;
    let mut i: u32 = 0;
    proof {
        power2::lemma2_to64();
        lemma_times_pow2_0(x as int);
    }
    while i < s
        invariant
            i <= s,
            r == x * power2::pow2(i as nat),
            x * power2::pow2(s as nat) < 0x8000_0000_0000_0000_0000_0000_0000_0000,
        decreases s - i,
    {
        proof {
            power2::lemma_pow2_adds(1, i as nat);
            power2::lemma2_to64();
            let p = power2::pow2(i as nat);
            let p1 = power2::pow2((i + 1) as nat);
            let ps = power2::pow2(s as nat);
            assert(p1 == 2 * p);
            assert(x * p1 == 2 * (x * p)) by (nonlinear_arith)
                requires
                    p1 == 2 * p,
            ;
            if i + 1 < s {
                power2::lemma_pow2_strictly_increases((i + 1) as nat, s as nat);
            }
            assert(x * p1 <= x * ps) by (nonlinear_arith)
                requires
                    p1 <= ps,
                    x >= 0,
            ;
        }
        r = r * 2;
        i = i + 1;
    }
    r
}

/// The `t` with `2^t <= n / d < 2^(t + 1)`.
fn ratio_log2(n: u128, d: u64) -> (t: i32)
    requires
        0 < n < 0x40_0000_0000_0000_0000_0000_0000_0000,
        0 < d < 0x40_0000_0000_0000,
    ensures
        at_least_pow2(n as nat, d as nat, t as int),
        !at_least_pow2(n as nat, d as nat, t + 1),
        -60 <= t <= 130,
{
    proof {
        power2::lemma2_to64();
    }
    if n >= d as u128 {
        let mut dd: u128 = d as u128;
        let mut t: i32 = 0;
        proof {
            lemma_times_pow2_0(d as int);
        }
        while n / 2 >= dd
            invariant
                n < 0x40_0000_0000_0000_0000_0000_0000_0000,
                0 < d <= dd <= n,
                0 <= t < 130,
                dd == d * power2::pow2(t as nat),
                dd >= power2::pow2(t as nat),
            decreases n - dd,
        {
            proof {
                power2::lemma_pow2_adds(1, t as nat);
                power2::lemma2_to64();
                let p = power2::pow2(t as nat);
                let p1 = power2::pow2((t + 1) as nat);
                assert(d * p1 == 2 * (d * p)) by (nonlinear_arith)
                    requires
                        p1 == 2 * p,
                ;
                if t >= 118 {
                    power2::lemma_pow2_adds(59, 59);
                    power2::lemma2_to64_rest();
                    assert(power2::pow2(118) == 0x40_0000_0000_0000_0000_0000_0000_0000);
                    if t > 118 {
                        power2::lemma_pow2_strictly_increases(118, t as nat);
                    }
                    assert(false);
                }
            }
            dd = dd * 2;
            t = t + 1;
        }
        proof {
            power2::lemma_pow2_adds(1, t as nat);
            let p = power2::pow2(t as nat);
            let p1 = power2::pow2((t + 1) as nat);
            assert(d * p1 == 2 * (d * p)) by (nonlinear_arith)
                requires
                    p1 == 2 * p,
            ;
        }
        t
    } else {
        let mut nn: u128 = n;
        let mut a: i32 = 0;
        proof {
            lemma_times_pow2_0(n as int);
            lemma_times_pow2_0(d as int);
        }
        while nn < d as u128
            invariant
                0 < n <= nn,
                n < d < 0x40_0000_0000_0000,
                nn < 2 * d,
                0 <= a <= 60,
                nn == n * power2::pow2(a as nat),
                nn >= power2::pow2(a as nat),
                a > 0 ==> n * power2::pow2((a - 1) as nat) < d,
            decreases 2 * d - nn,
        {
            proof {
                power2::lemma_pow2_adds(1, a as nat);
                power2::lemma2_to64();
                let p = power2::pow2(a as nat);
                let p1 = power2::pow2((a + 1) as nat);
                assert(n * p1 == 2 * (n * p)) by (nonlinear_arith)
                    requires
                        p1 == 2 * p,
                ;
                if a >= 60 {
                    power2::lemma2_to64_rest();
                    assert(false);
                }
            }
            nn = nn * 2;
            a = a + 1;
        }
        -a
    }
}

/// The double nearest to `(-1)^neg * n / d * 2^e`.
fn round_ratio(neg: bool, n: u128, d: u64, e: i32) -> (r: Double)
    requires
        n < 0x40_0000_0000_0000_0000_0000_0000_0000,
        0 < d < 0x40_0000_0000_0000,
        -4000 <= e <= 4000,
    ensures
        r == round(neg, n as nat, d as nat, e as int),
{
    proof {
        reveal(round);
    }
    let sign: u64 = if neg {
        0x8000_0000_0000_0000
    } else {
        0
    };
    if n == 0 {
        return Double { bits: sign };
    }
    let t: i32 = ratio_log2(n, d);
    proof {
        lemma_floor_log2(n as nat, d as nat, t as int);
    }
    let mut k: i32 = e + t - 52;
    if k < -1074 {
        k = -1074;
    }
    if k > 971 {
        return Double { bits: sign + 0x7ff0_0000_0000_0000 };
    }
    let s: i32 = k - e;
    proof {
        lemma_fits_53(n as nat, d as nat, t as int, s as int);
    }
    let m: u64;
    if s >= t + 2 {
        proof {
            if at_least_pow2(n as nat, d as nat, s - 1) {
                lemma_at_least_mono(n as nat, d as nat, t + 1, s - 1);
            }
            power2::lemma2_to64();
            if s >= 1 {
                power2::lemma_pow2_adds(1, (s - 1) as nat);
                let p = power2::pow2((s - 1) as nat);
                let p1 = power2::pow2(s as nat);
                assert(d * p1 == 2 * (d * p)) by (nonlinear_arith)
                    requires
                        p1 == 2 * p,
                ;
                lemma_nearest_int_small(n as nat, (d * p1) as nat);
            } else if s == 0 {
                lemma_times_pow2_0(d as int);
                lemma_times_pow2_0(n as int);
                lemma_nearest_int_small(n as nat, d as nat);
            } else {
                let a = (-s) as nat;
                power2::lemma_pow2_adds(1, a);
                let p = power2::pow2(a);
                let p1 = power2::pow2(a + 1);
                assert(n * p1 == 2 * (n * p)) by (nonlinear_arith)
                    requires
                        p1 == 2 * p,
                ;
                lemma_nearest_int_small((n * p) as nat, d as nat);
            }
        }
        m = 0;
    } else {
        let num: u128;
        let den: u128;
        if s >= 0 {
            proof {
                power2::lemma2_to64();
                let p = power2::pow2(s as nat);
                if t >= 0 {
                    let pt = power2::pow2(t as nat);
                    power2::lemma_pow2_adds(1, t as nat);
                    let pt1 = power2::pow2((t + 1) as nat);
                    if s < t + 1 {
                        power2::lemma_pow2_strictly_increases(s as nat, (t + 1) as nat);
                    }
                    assert(d * p <= 2 * (d * pt)) by (nonlinear_arith)
                        requires
                            p <= 2 * pt,
                            d >= 0,
                    ;
                } else {
                    assert(s == 0);
                    lemma_times_pow2_0(d as int);
                }
                power2::lemma_pow2_pos(s as nat);
                assert(d * p > 0) by (nonlinear_arith)
                    requires
                        d > 0,
                        p > 0,
                ;
            }
            num = n;
            den = scale_up(d as u128, s as u32);
        } else {
            num = scale_up(n, (-s) as u32);
            den = d as u128;
        }
        proof {
            lemma_div_bound(num as nat, den as nat, 0x20_0000_0000_0000);
            div_mod::lemma_mod_bound(num as int, den as int);
        }
        let q: u64 = (num / den) as u64;
        let rem: u128 = num % den;
        if 2 * rem > den || (2 * rem == den && q % 2 == 1) {
            m = q + 1;
        } else {
            m = q;
        }
        assert(m == nearest_multiple(n as nat, d as nat, s as int));
    }
    Double { bits: sign + (k + 1074) as u64 * 0x0010_0000_0000_0000 + m }
}

// ---- taking a number apart -----------------------------------------------

/// The integer fields of a finite number.
struct Parts {
    neg: bool,
    mant: u64,
    exp: i32,
}

fn parts(a: Double) -> (r: Parts)
    ensures
        r.neg == is_neg(a),
        r.mant == significand(a),
        r.exp == exponent(a),
        r.mant < 0x20_0000_0000_0000,
        -1074 <= r.exp <= 972,
        r.exp > -1074 ==> r.mant >= 0x10_0000_0000_0000,
{
    let m: u64 = a.bits % 0x8000_0000_0000_0000;
    if m < 0x0010_0000_0000_0000 {
        Parts { neg: a.bits >= 0x8000_0000_0000_0000, mant: m, exp: -1074 }
    } else {
        Parts {
            neg: a.bits >= 0x8000_0000_0000_0000,
            mant: 0x0010_0000_0000_0000 + m % 0x0010_0000_0000_0000,
            exp: (m / 0x0010_0000_0000_0000) as i32 - 1075,
        }
    }
}

/// Rebuilding a finite number from its significand and exponent.
pub proof fn lemma_encode_parts(a: Double)
    requires
        is_finite(a),
    ensures
        encode(is_neg(a), significand(a) as nat, exponent(a)) == a,
        0 <= significand(a) < 0x20_0000_0000_0000,
        -1074 <= exponent(a) <= 971,
        exponent(a) > -1074 ==> significand(a) >= 0x10_0000_0000_0000,
{
}

proof fn lemma_nearest_exact(m: nat, b: nat, r: nat, up: bool)
    requires
        b > 0,
        4 * r < b,
        !up || r <= m * b,
    ensures
        !up ==> nearest_int(m * b + r, b) == m,
        up && r <= m * b ==> nearest_int((m * b - r) as nat, b) == m,
{
    if !up {
        div_mod::lemma_fundamental_div_mod_converse(
            (m * b + r) as int,
            b as int,
            m as int,
            r as int,
        );
    } else if r == 0 {
        div_mod::lemma_fundamental_div_mod_converse(
            (m * b) as int,
            b as int,
            m as int,
            0,
        );
    } else {
        assert((m - 1) * b + (b - r) == m * b - r) by (nonlinear_arith);
        div_mod::lemma_fundamental_div_mod_converse(
            (m * b - r) as int,
            b as int,
            m - 1,
            b - r,
        );
    }
}

/// A number 56 or more binary places below another does not change it in a
/// rounded sum.
proof fn lemma_absorb(neg: bool, m: nat, k: nat, e: int, r: nat, up: bool)
    requires
        0x10_0000_0000_0000 <= m < 0x20_0000_0000_0000,
        r < 0x20_0000_0000_0000,
        k >= 56,
        -1074 <= e,
        e + k <= 971,
    ensures
        r <= m * power2::pow2(k),
        !up ==> round(neg, m * power2::pow2(k) + r, 1, e) == encode(neg, m, e + k),
        up ==> round(neg, (m * power2::pow2(k) - r) as nat, 1, e) == encode(neg, m, e + k),
{
    reveal(round);
    power2::lemma2_to64();
    power2::lemma2_to64_rest();
    let p = power2::pow2(k);
    if k > 56 {
        power2::lemma_pow2_strictly_increases(56, k);
    }
    assert(p >= 8 * 0x20_0000_0000_0000);
    assert(m * p >= 0x10_0000_0000_0000 * p) by (nonlinear_arith)
        requires
            m >= 0x10_0000_0000_0000,
            p > 0,
    ;
    assert((m + 1) * p <= 0x20_0000_0000_0000 * p) by (nonlinear_arith)
        requires
            m + 1 <= 0x20_0000_0000_0000,
            p > 0,
    ;
    assert((m + 1) * p == m * p + p) by (nonlinear_arith);
    power2::lemma_pow2_adds(52, k);
    power2::lemma_pow2_adds(53, k);
    let n: nat = if up {
        (m * p - r) as nat
    } else {
        m * p + r
    };
    let hi = power2::pow2((52 + k) as nat);
    assert(hi == 0x10_0000_0000_0000 * p);
    assert(power2::pow2((53 + k) as nat) == 0x20_0000_0000_0000 * p);
    assert(1 * hi == hi);
    assert(1 * p == p);
    if n >= hi {
        assert(at_least_pow2(n, 1, 52int + k));
        assert(!at_least_pow2(n, 1, 52int + k + 1));
        lemma_floor_log2(n, 1, 52int + k);
        lemma_nearest_exact(m, p, r, up);
        assert(nearest_multiple(n, 1, k as int) == m);
    } else {
        // Only reached just below a power of two: one more bit fits.
        assert(up && r > 0 && m == 0x10_0000_0000_0000) by {
            if m > 0x10_0000_0000_0000 {
                assert(m * p >= (0x10_0000_0000_0000 + 1) * p) by (nonlinear_arith)
                    requires
                        m >= 0x10_0000_0000_0000 + 1,
                        p > 0,
                ;
                assert((0x10_0000_0000_0000 + 1) * p == 0x10_0000_0000_0000 * p + p)
                    by (nonlinear_arith);
            }
        }
        let k1 = (k - 1) as nat;
        let h = power2::pow2(k1);
        power2::lemma_pow2_adds(1, k1);
        power2::lemma_pow2_adds(52, k1);
        power2::lemma_pow2_adds(53, k1);
        assert(p == 2 * h);
        assert(power2::pow2((52 + k1) as nat) == 0x10_0000_0000_0000 * h);
        assert(at_least_pow2(n, 1, 52int + k1));
        assert(!at_least_pow2(n, 1, 52int + k1 + 1));
        lemma_floor_log2(n, 1, 52int + k1);
        assert(m * p == 0x20_0000_0000_0000 * h);
        lemma_nearest_exact(0x20_0000_0000_0000, h, r, true);
        assert(1 * h == h);
        assert(nearest_multiple(n, 1, k1 as int) == 0x20_0000_0000_0000);
        assert(encode(neg, 0x20_0000_0000_0000, e + k1) == encode(neg, 0x10_0000_0000_0000, e + k));
    }
}

impl Double {
    pub fn from_bits(bits: u64) -> (r: Double)
        ensures
            r.bits == bits,
    {
        Double { bits }
    }

    pub fn to_bits(self) -> (r: u64)
        ensures
            r == self.bits,
    {
        self.bits
    }

    pub fn is_nan(self) -> (r: bool)
        ensures
            r == is_nan(self),
    {
        self.bits % 0x8000_0000_0000_0000 > 0x7ff0_0000_0000_0000
    }

    fn is_inf(self) -> (r: bool)
        ensures
            r == is_inf(self),
    {
        self.bits % 0x8000_0000_0000_0000 == 0x7ff0_0000_0000_0000
    }

    fn infinity(neg: bool) -> (r: Double)
        ensures
            r == infinity(neg),
    {
        Double {
            bits: if neg {
                0xfff0_0000_0000_0000
            } else {
                0x7ff0_0000_0000_0000
            },
        }
    }

    fn nan() -> (r: Double)
        ensures
            r == nan(),
    {
        Double { bits: NAN_BITS }
    }

    /// `a + b` where `a` has the larger exponent.
    fn add_ordered(a: Double, b: Double) -> (r: Double)
        requires
            is_finite(a),
            is_finite(b),
            exponent(a) >= exponent(b),
        ensures
            r == a.plus(b),
            r == b.plus(a),
    {
        let x = parts(a);
        let y = parts(b);
        let k: i32 = x.exp - y.exp;
        proof {
            lemma_encode_parts(a);
            lemma_encode_parts(b);
            power2::lemma2_to64();
            lemma_times_pow2_0(x.mant as int);
            lemma_times_pow2_0(y.mant as int);
            assert(exact_sum(a, b) == exact_sum(b, a));
            reveal(Double::plus);
        }
        if k >= 56 {
            proof {
                lemma_absorb(x.neg, x.mant as nat, k as nat, y.exp as int, y.mant as nat, x.neg != y.neg);
                power2::lemma_pow2_pos(k as nat);
                assert(x.mant * power2::pow2(k as nat) > 0x20_0000_0000_0000) by {
                    power2::lemma2_to64_rest();
                    if k > 56 {
                        power2::lemma_pow2_strictly_increases(56, k as nat);
                    }
                    let p = power2::pow2(k as nat);
                    assert(x.mant * p >= p) by (nonlinear_arith)
                        requires
                            x.mant >= 1,
                            p > 0,
                    ;
                }
            }
            return a;
        }
        proof {
            power2::lemma2_to64_rest();
            if k < 56 {
                power2::lemma_pow2_strictly_increases(k as nat, 56);
            }
            let p = power2::pow2(k as nat);
            assert(x.mant * p < 0x20_0000_0000_0000 * 0x100_0000_0000_0000) by (nonlinear_arith)
                requires
                    x.mant < 0x20_0000_0000_0000,
                    p < 0x100_0000_0000_0000,
            ;
        }
        let big: u128 = scale_up(x.mant as u128, k as u32);
        let small: u128 = y.mant as u128;
        if x.neg == y.neg {
            let n: u128 = big + small;
            round_ratio(
                x.neg,
                n,
                1,
                if n == 0 {
                    0
                } else {
                    y.exp
                },
            )
        } else if big > small {
            round_ratio(x.neg, big - small, 1, y.exp)
        } else if small > big {
            round_ratio(y.neg, small - big, 1, y.exp)
        } else {
            round_ratio(false, 0, 1, 0)
        }
    }

    pub fn add(self, b: Double) -> (r: Double)
        ensures
            r == self.plus(b),
    {
        proof {
            reveal(Double::plus);
        }
        if self.is_nan() || b.is_nan() {
            Double::nan()
        } else if self.is_inf() {
            if b.is_inf() && (self.bits >= SIGN_BIT) != (b.bits >= SIGN_BIT) {
                Double::nan()
            } else {
                self
            }
        } else if b.is_inf() {
            b
        } else {
            let x = parts(self);
            let y = parts(b);
            if x.exp >= y.exp {
                Double::add_ordered(self, b)
            } else {
                Double::add_ordered(b, self)
            }
        }
    }

    pub fn neg(self) -> (r: Double)
        ensures
            r == self.negated(),
    {
        if self.bits >= SIGN_BIT {
            Double { bits: self.bits - SIGN_BIT }
        } else {
            Double { bits: self.bits + SIGN_BIT }
        }
    }

    pub fn sub(self, b: Double) -> (r: Double)
        ensures
            r == self.minus(b),
    {
        self.add(b.neg())
    }

    pub fn mul(self, b: Double) -> (r: Double)
        ensures
            r == self.times(b),
    {
        proof {
            reveal(Double::times);
        }
        let x = parts(self);
        let y = parts(b);
        let neg = x.neg != y.neg;
        if self.is_nan() || b.is_nan() {
            Double::nan()
        } else if self.is_inf() || b.is_inf() {
            if x.mant == 0 || y.mant == 0 {
                Double::nan()
            } else {
                Double::infinity(neg)
            }
        } else {
            assert(x.mant * y.mant < 0x20_0000_0000_0000 * 0x20_0000_0000_0000) by (nonlinear_arith)
                requires
                    x.mant < 0x20_0000_0000_0000,
                    y.mant < 0x20_0000_0000_0000,
            ;
            assert(0 <= x.mant * y.mant) by (nonlinear_arith);
            round_ratio(neg, x.mant as u128 * y.mant as u128, 1, x.exp + y.exp)
        }
    }

    pub fn div(self, b: Double) -> (r: Double)
        ensures
            r == self.over(b),
    {
        proof {
            reveal(Double::over);
        }
        let x = parts(self);
        let y = parts(b);
        let neg = x.neg != y.neg;
        if self.is_nan() || b.is_nan() || (self.is_inf() && b.is_inf()) {
            Double::nan()
        } else if self.is_inf() {
            Double::infinity(neg)
        } else if b.is_inf() {
            round_ratio(neg, 0, 1, 0)
        } else if y.mant == 0 {
            if x.mant == 0 {
                Double::nan()
            } else {
                Double::infinity(neg)
            }
        } else {
            round_ratio(neg, x.mant as u128, y.mant, x.exp - y.exp)
        }
    }
}

/// Among numbers of one sign the encodings are ordered as the magnitudes.
proof fn lemma_magnitude_order(a: Double, b: Double)
    requires
        magnitude_bits(a) < magnitude_bits(b) <= 0x7ff0_0000_0000_0000,
    ensures
        0 <= significand(a) * power2::pow2((exponent(a) + 1074) as nat) < significand(b) * power2::pow2(
            (exponent(b) + 1074) as nat,
        ),
{
    let x = (exponent(a) + 1074) as nat;
    let y = (exponent(b) + 1074) as nat;
    let p = power2::pow2(x);
    let q = power2::pow2(y);
    let m = significand(a);
    let n = significand(b);
    power2::lemma_pow2_pos(x);
    power2::lemma_pow2_pos(y);
    assert(0 <= m * p) by (nonlinear_arith)
        requires
            0 <= m,
            0 < p,
    ;
    if x == y {
        assert(m < n);
        assert(m * p < n * p) by (nonlinear_arith)
            requires
                m < n,
                0 < p,
        ;
    } else {
        assert(x < y);
        power2::lemma_pow2_adds(1, x);
        lemma_times_pow2_0(p as int);
        power2::lemma2_to64();
        assert(power2::pow2(x + 1) == 2 * p);
        if x + 1 < y {
            power2::lemma_pow2_strictly_increases(x + 1, y);
        }
        assert(m < 0x20_0000_0000_0000 && n >= 0x10_0000_0000_0000);
        assert(m * p < n * q) by (nonlinear_arith)
            requires
                0 <= m < 0x20_0000_0000_0000,
                n >= 0x10_0000_0000_0000,
                q >= 2 * p,
                p > 0,
        ;
    }
}

proof fn lemma_magnitude_same(a: Double, b: Double)
    requires
        magnitude_bits(a) == magnitude_bits(b),
    ensures
        significand(a) == significand(b),
        exponent(a) == exponent(b),
        magnitude_bits(a) == 0 ==> significand(a) * power2::pow2((exponent(a) + 1074) as nat) == 0,
        magnitude_bits(a) > 0 ==> significand(a) * power2::pow2((exponent(a) + 1074) as nat) > 0,
{
    let p = power2::pow2((exponent(a) + 1074) as nat);
    let m = significand(a);
    power2::lemma_pow2_pos((exponent(a) + 1074) as nat);
    assert(m == 0 ==> m * p == 0) by (nonlinear_arith);
    assert(m > 0 ==> m * p > 0) by (nonlinear_arith)
        requires
            p > 0,
    ;
}

proof fn lemma_order(a: Double, b: Double)
    requires
        !is_nan(a),
        !is_nan(b),
    ensures
        ({
            let x = if is_neg(a) {
                -magnitude_bits(a)
            } else {
                magnitude_bits(a)
            };
            let y = if is_neg(b) {
                -magnitude_bits(b)
            } else {
                magnitude_bits(b)
            };
            (x < y <==> units(a) < units(b)) && (x == y <==> units(a) == units(b))
        }),
{
    lemma_magnitude_same(a, a);
    lemma_magnitude_same(b, b);
    if magnitude_bits(a) < magnitude_bits(b) {
        lemma_magnitude_order(a, b);
    } else if magnitude_bits(b) < magnitude_bits(a) {
        lemma_magnitude_order(b, a);
    } else {
        lemma_magnitude_same(a, b);
    }
}

impl Double {
    fn order_key(self) -> (r: i128)
        ensures
            r == if is_neg(self) {
                -magnitude_bits(self)
            } else {
                magnitude_bits(self)
            },
    {
        let m: i128 = (self.bits % SIGN_BIT) as i128;
        if self.bits >= SIGN_BIT {
            -m
        } else {
            m
        }
    }

    pub fn lt(self, b: Double) -> (r: bool)
        ensures
            r == self.below(b),
    {
        proof {
            reveal(Double::below);
        }
        if self.is_nan() || b.is_nan() {
            return false;
        }
        proof {
            lemma_order(self, b);
        }
        self.order_key() < b.order_key()
    }

    pub fn equals(self, b: Double) -> (r: bool)
        ensures
            r == self.same_value(b),
    {
        proof {
            reveal(Double::same_value);
        }
        if self.is_nan() || b.is_nan() {
            return false;
        }
        proof {
            lemma_order(self, b);
        }
        self.order_key() == b.order_key()
    }

    pub fn le(self, b: Double) -> (r: bool)
        ensures
            r == self.at_most(b),
    {
        self.lt(b) || self.equals(b)
    }

    pub fn max(self, b: Double) -> (r: Double)
        ensures
            r == self.larger(b),
    {
        if self.is_nan() || self.lt(b) {
            b
        } else {
            self
        }
    }

    pub fn abs(self) -> (r: Double)
        ensures
            r == self.magnitude(),
    {
        Double { bits: self.bits % SIGN_BIT }
    }

    pub fn from_i64(n: i64) -> (r: Double)
        ensures
            r == Double::of(n as int),
    {
        if n < 0 {
            round_ratio(true, (-(n as i128)) as u128, 1, 0)
        } else {
            round_ratio(false, n as u128, 1, 0)
        }
    }

    pub fn from_u64(n: u64) -> (r: Double)
        ensures
            r == Double::of(n as int),
    {
        round_ratio(false, n as u128, 1, 0)
    }

    /// The literal `n / d`.
    pub fn lit(n: u64, d: u64) -> (r: Double)
        requires
            0 < d < 0x40_0000_0000_0000,
        ensures
            r == Double::frac(n as nat, d as nat),
    {
        round_ratio(false, n as u128, d, 0)
    }

    pub fn floor(self) -> (r: Double)
        ensures
            r == self.floored(),
    {
        proof {
            reveal(Double::floored);
        }
        let x = parts(self);
        if self.is_nan() || self.is_inf() || x.exp >= 0 {
            return self;
        }
        let s: i32 = -x.exp;
        if s >= 54 {
            proof {
                power2::lemma_pow2_strictly_increases(53, s as nat);
                power2::lemma2_to64_rest();
                div_mod::lemma_basic_div(x.mant as int, power2::pow2(s as nat) as int);
                div_mod::lemma_small_mod(x.mant as nat, power2::pow2(s as nat));
            }
            if x.neg && x.mant != 0 {
                round_ratio(true, 1, 1, 0)
            } else {
                round_ratio(x.neg, 0, 1, 0)
            }
        } else {
            proof {
                lemma_times_pow2_0(power2::pow2(s as nat) as int);
                power2::lemma2_to64();
                power2::lemma2_to64_rest();
                power2::lemma_pow2_pos(s as nat);
                if s < 54 {
                    power2::lemma_pow2_strictly_increases(s as nat, 54);
                }
            }
            let p: u128 = scale_up(1, s as u32);
            let q: u128 = x.mant as u128 / p;
            let rem: u128 = x.mant as u128 % p;
            proof {
                div_mod::lemma_div_nonincreasing(x.mant as int, p as int);
            }
            if x.neg && rem != 0 {
                round_ratio(true, q + 1, 1, 0)
            } else {
                round_ratio(x.neg, q, 1, 0)
            }
        }
    }

    /// Conversion to an integer, as a saturating cast does it.
    pub fn to_i64(self) -> (r: i64)
        ensures
            r == self.truncated(),
    {
        proof {
            reveal(Double::truncated);
        }
        if self.is_nan() {
            return 0;
        }
        let x = parts(self);
        if self.is_inf() || x.exp >= 12 {
            // At least 2^64 in magnitude.
            proof {
                if !is_inf(self) {
                    power2::lemma2_to64();
                    let p = power2::pow2(x.exp as nat);
                    if x.exp > 12 {
                        power2::lemma_pow2_strictly_increases(12, x.exp as nat);
                    }
                    let m = x.mant;
                    assert(m * p >= 0x10_0000_0000_0000 * 0x1000) by (nonlinear_arith)
                        requires
                            m >= 0x10_0000_0000_0000,
                            p >= 0x1000,
                    ;
                }
            }
            return if x.neg {
                i64::MIN
            } else {
                i64::MAX
            };
        }
        let v: i128;
        if x.exp >= 0 {
            proof {
                power2::lemma2_to64();
                let p = power2::pow2(x.exp as nat);
                power2::lemma_pow2_strictly_increases(x.exp as nat, 12);
                let m = x.mant;
                assert(0 <= m * p <= 0x20_0000_0000_0000 * 0x1000) by (nonlinear_arith)
                    requires
                        m < 0x20_0000_0000_0000,
                        p <= 0x1000,
                ;
            }
            v = scale_up(x.mant as u128, x.exp as u32) as i128;
        } else {
            let s: i32 = -x.exp;
            if s >= 54 {
                proof {
                    power2::lemma_pow2_strictly_increases(53, s as nat);
                    power2::lemma2_to64_rest();
                    div_mod::lemma_basic_div(x.mant as int, power2::pow2(s as nat) as int);
                }
                v = 0;
            } else {
                proof {
                    power2::lemma2_to64_rest();
                    power2::lemma_pow2_pos(s as nat);
                    power2::lemma_pow2_strictly_increases(s as nat, 54);
                }
                let p: u128 = scale_up(1, s as u32);
                proof {
                    div_mod::lemma_div_nonincreasing(x.mant as int, p as int);
                    div_mod::lemma_div_pos_is_pos(x.mant as int, p as int);
                }
                v = (x.mant as u128 / p) as i128;
            }
        }
        let w: i128 = if x.neg {
            -v
        } else {
            v
        };
        if w < i64::MIN as i128 {
            i64::MIN
        } else if w > i64::MAX as i128 {
            i64::MAX
        } else {
            w as i64
        }
    }

    /// Round to 13 decimal places.
    pub fn round13(self) -> (r: Double)
        ensures
            r == self.decimal13(),
    {
        proof {
            reveal(Double::decimal13);
        }
        let x = parts(self);
        if self.is_nan() || self.is_inf() || x.exp >= 0 {
            return self;
        }
        let s: i32 = -x.exp;
        let scaled: u128 = x.mant as u128 * 10_000_000_000_000;
        let k: u128;
        if s >= 100 {
            proof {
                power2::lemma_pow2_adds(50, 49);
                power2::lemma2_to64_rest();
                assert(power2::pow2(99) == 0x4_0000_0000_0000 * 0x2_0000_0000_0000) by (nonlinear_arith)
                    requires
                        power2::pow2(99) == power2::pow2(50) * power2::pow2(49),
                        power2::pow2(50) == 0x4_0000_0000_0000,
                        power2::pow2(49) == 0x2_0000_0000_0000,
                ;
                power2::lemma_pow2_strictly_increases(99, s as nat);
                lemma_nearest_int_small(scaled as nat, power2::pow2(s as nat));
            }
            k = 0;
        } else {
            proof {
                power2::lemma_pow2_adds(50, 50);
                power2::lemma2_to64_rest();
                assert(power2::pow2(100) == 0x4_0000_0000_0000 * 0x4_0000_0000_0000) by (nonlinear_arith)
                    requires
                        power2::pow2(100) == power2::pow2(50) * power2::pow2(50),
                        power2::pow2(50) == 0x4_0000_0000_0000,
                ;
                power2::lemma_pow2_pos(s as nat);
                power2::lemma_pow2_strictly_increases(s as nat, 100);
            }
            let p: u128 = scale_up(1, s as u32);
            let q: u128 = scaled / p;
            let rem: u128 = scaled % p;
            proof {
                div_mod::lemma_div_nonincreasing(scaled as int, p as int);
            }
            if 2 * rem > p || (2 * rem == p && q % 2 == 1) {
                k = q + 1;
            } else {
                k = q;
            }
        }
        round_ratio(x.neg, k, 10_000_000_000_000, 0)
    }
}

// ---- exact results -------------------------------------------------------

/// The binary order of magnitude of a number.
pub proof fn lemma_log2(q: nat) -> (j: nat)
    requires
        q > 0,
    ensures
        power2::pow2(j) <= q < power2::pow2(j + 1),
    decreases q,
{
    power2::lemma2_to64();
    if q == 1 {
        0
    } else {
        let i = lemma_log2(q / 2);
        power2::lemma_pow2_adds(1, i);
        power2::lemma_pow2_adds(1, i + 1);
        i + 1
    }
}

/// `n / d == m * 2^s`.
pub open spec fn is_scaled(n: nat, d: nat, m: nat, s: int) -> bool {
    if s >= 0 {
        n == d * m * power2::pow2(s as nat)
    } else {
        n * power2::pow2((-s) as nat) == d * m
    }
}

proof fn lemma_at_least_scaled(n: nat, d: nat, m: nat, s: int, j: nat)
    requires
        d > 0,
        is_scaled(n, d, m, s),
    ensures
        at_least_pow2(n, d, s + j) <==> m >= power2::pow2(j),
{
    let pj = power2::pow2(j);
    power2::lemma_pow2_pos(j);
    if s >= 0 {
        let ps = power2::pow2(s as nat);
        power2::lemma_pow2_pos(s as nat);
        power2::lemma_pow2_adds(s as nat, j);
        assert((d * m * ps >= d * (ps * pj)) <==> m >= pj) by (nonlinear_arith)
            requires
                d > 0,
                ps > 0,
        ;
    } else if s + j >= 0 {
        let pn = power2::pow2((-s) as nat);
        let pt = power2::pow2((s + j) as nat);
        power2::lemma_pow2_pos((-s) as nat);
        power2::lemma_pow2_adds((s + j) as nat, (-s) as nat);
        assert(pt * pn == pj);
        assert((n >= d * pt) <==> m >= pj) by (nonlinear_arith)
            requires
                n * pn == d * m,
                pt * pn == pj,
                pn > 0,
                d > 0,
        ;
    } else {
        let pn = power2::pow2((-s) as nat);
        let pr = power2::pow2((-(s + j)) as nat);
        power2::lemma_pow2_adds((-(s + j)) as nat, j);
        assert(pr * pj == pn);
        assert((n * pr >= d) <==> m >= pj) by (nonlinear_arith)
            requires
                n * pn == d * m,
                pr * pj == pn,
                pj > 0,
                d > 0,
        ;
    }
}

/// A quotient that is a double is not rounded.
pub proof fn lemma_round_exact(neg: bool, n: nat, d: nat, e: int, m: nat, k: int)
    requires
        d > 0,
        0x10_0000_0000_0000 <= m < 0x20_0000_0000_0000,
        -1074 <= k <= 971,
        is_scaled(n, d, m, k - e),
    ensures
        round(neg, n, d, e) == encode(neg, m, k),
{
    reveal(round);
    power2::lemma2_to64_rest();
    let s = k - e;
    lemma_at_least_scaled(n, d, m, s, 52);
    lemma_at_least_scaled(n, d, m, s, 53);
    lemma_floor_log2(n, d, s + 52);
    if n == 0 {
        let t = s + 52;
        if t >= 0 {
            let p = power2::pow2(t as nat);
            power2::lemma_pow2_pos(t as nat);
            assert(d * p > 0) by (nonlinear_arith)
                requires
                    d > 0,
                    p > 0,
            ;
        } else {
            assert(n * power2::pow2((-t) as nat) == 0) by (nonlinear_arith)
                requires
                    n == 0,
            ;
        }
    }
    if s >= 0 {
        let p = power2::pow2(s as nat);
        power2::lemma_pow2_pos(s as nat);
        let b = d * p;
        assert(b > 0) by (nonlinear_arith)
            requires
                d > 0,
                p > 0,
                b == d * p,
        ;
        assert(n == m * b + 0) by (nonlinear_arith)
            requires
                n == d * m * p,
                b == d * p,
        ;
        lemma_nearest_exact(m, b, 0, false);
    } else {
        let p = power2::pow2((-s) as nat);
        assert(n * p == m * d + 0) by (nonlinear_arith)
            requires
                n * p == d * m,
        ;
        lemma_nearest_exact(m, d, 0, false);
    }
}

/// What stands in the fields of an encoded number.
pub proof fn lemma_encoded(neg: bool, m: nat, k: int)
    requires
        0x10_0000_0000_0000 <= m <= 0x20_0000_0000_0000,
        -1074 <= k < 971,
    ensures
        is_finite(encode(neg, m, k)),
        is_neg(encode(neg, m, k)) == neg,
        m < 0x20_0000_0000_0000 ==> significand(encode(neg, m, k)) == m && exponent(
            encode(neg, m, k),
        ) == k,
        m == 0x20_0000_0000_0000 ==> significand(encode(neg, m, k)) == 0x10_0000_0000_0000
            && exponent(encode(neg, m, k)) == k + 1,
{
}

/// An integer of up to 53 bits is a double.
pub proof fn lemma_of(q: nat) -> (j: nat)
    requires
        0 < q <= 0x20_0000_0000_0000,
    ensures
        j <= 53,
        power2::pow2(j) <= q < power2::pow2(j + 1),
        !is_neg(Double::of(q as int)),
        is_finite(Double::of(q as int)),
        exponent(Double::of(q as int)) == j - 52,
        j <= 52 ==> significand(Double::of(q as int)) == q * power2::pow2((52 - j) as nat),
        j == 53 ==> significand(Double::of(q as int)) == 0x10_0000_0000_0000,
        0x10_0000_0000_0000 <= significand(Double::of(q as int)) < 0x20_0000_0000_0000,
        integer_part(Double::of(q as int)) == q,
{
    power2::lemma2_to64();
    power2::lemma2_to64_rest();
    let j = lemma_log2(q);
    if j > 53 {
        power2::lemma_pow2_strictly_increases(53, j);
    }
    if j < 53 {
        let p = power2::pow2((52 - j) as nat);
        power2::lemma_pow2_pos((52 - j) as nat);
        power2::lemma_pow2_adds(j, (52 - j) as nat);
        power2::lemma_pow2_adds(j + 1, (52 - j) as nat);
        let m = q * p;
        let a = power2::pow2(j);
        let b = power2::pow2(j + 1);
        assert(a * p <= m < b * p) by (nonlinear_arith)
            requires
                a <= q < b,
                p > 0,
                m == q * p,
        ;
        assert(is_scaled(q, 1, m, j - 52)) by {
            if j == 52 {
                assert(1 * m * power2::pow2(0) == q) by (nonlinear_arith)
                    requires
                        m == q * p,
                        p == 1,
                        power2::pow2(0) == 1,
                ;
            }
        }
        lemma_round_exact(false, q, 1, 0, m, j - 52);
        lemma_encoded(false, m, j - 52);
        if j < 52 {
            div_mod::lemma_div_multiples_vanish(q as int, p as int);
            assert(q * p == p * q) by (nonlinear_arith);
        }
    } else {
        let m = 0x10_0000_0000_0000nat;
        let p = power2::pow2(1);
        assert(1 * m * p == q) by (nonlinear_arith)
            requires
                p == 2,
                m == 0x10_0000_0000_0000,
                q == 0x20_0000_0000_0000,
        ;
        lemma_round_exact(false, q, 1, 0, m, 1);
        lemma_encoded(false, m, 1);
    }
    j
}

/// Flooring and converting a number of up to 53 bits gives its integer part.
pub proof fn lemma_floored(x: Double)
    requires
        is_finite(x),
        !is_neg(x),
        integer_part(x) <= 0x20_0000_0000_0000,
    ensures
        x.floored().truncated() == integer_part(x),
{
    reveal(Double::floored);
    reveal(Double::truncated);
    let e = exponent(x);
    if e < 0 {
        let p = power2::pow2((-e) as nat) as int;
        power2::lemma_pow2_pos((-e) as nat);
        let q = significand(x) / p;
        assert(q >= 0) by {
            div_mod::lemma_div_pos_is_pos(significand(x), p);
        }
        if q > 0 {
            let j = lemma_of(q as nat);
        } else {
            reveal(round);
            assert(round(false, 0, 1, 0) == encode(false, 0, -1074));
            let z = encode(false, 0, -1074);
            assert(z.bits == 0);
            assert(significand(z) == 0 && exponent(z) == -1074);
            let pz = power2::pow2(1074) as int;
            power2::lemma_pow2_pos(1074);
            div_mod::lemma_basic_div(0, pz);
        }
    }
}

/// The difference to 1 of a number in `[1, 2)` has the binary places of that
/// number.
pub proof fn lemma_places(u: Double, f: nat) -> (j: nat)
    requires
        f < 0x10_0000_0000_0000,
        u.bits == 0x3ff0_0000_0000_0000 + f,
    ensures
        !is_neg(u.minus(Double::of(1))),
        is_finite(u.minus(Double::of(1))),
        f == 0 ==> significand(u.minus(Double::of(1))) == 0 && exponent(u.minus(Double::of(1)))
            == -1074,
        f > 0 ==> j < 52 && power2::pow2(j) <= f && significand(u.minus(Double::of(1))) == f
            * power2::pow2((52 - j) as nat) && exponent(u.minus(Double::of(1))) == j - 104,
        f > 0 ==> 0x10_0000_0000_0000 <= significand(u.minus(Double::of(1))) < 0x20_0000_0000_0000,
{
    reveal(Double::plus);
    power2::lemma2_to64();
    power2::lemma2_to64_rest();
    let i = lemma_of(1);
    assert(i == 0) by {
        if i > 0 {
            power2::lemma_pow2_strictly_increases(0, i);
        }
    }
    let one = Double::of(1);
    let neg = one.negated();
    assert(significand(one) == 0x10_0000_0000_0000) by {
        assert(1 * power2::pow2(52) == 0x10_0000_0000_0000);
    }
    assert(significand(neg) == 0x10_0000_0000_0000 && exponent(neg) == -52 && is_neg(neg));
    assert(significand(u) == 0x10_0000_0000_0000 + f && exponent(u) == -52 && !is_neg(u));
    lemma_times_pow2_0(significand(u));
    lemma_times_pow2_0(significand(neg));
    assert(exact_sum(u, neg) == f);
    if f == 0 {
        reveal(round);
        0
    } else {
        let j = lemma_log2(f);
        if j >= 52 {
            if j > 52 {
                power2::lemma_pow2_strictly_increases(52, j);
            }
        }
        let p = power2::pow2((52 - j) as nat);
        power2::lemma_pow2_pos((52 - j) as nat);
        power2::lemma_pow2_adds(j, (52 - j) as nat);
        power2::lemma_pow2_adds(j + 1, (52 - j) as nat);
        let m = f * p;
        let a = power2::pow2(j);
        let b = power2::pow2(j + 1);
        assert(a * p <= m < b * p) by (nonlinear_arith)
            requires
                a <= f < b,
                p > 0,
                m == f * p,
        ;
        lemma_round_exact(false, f, 1, -52, m, j - 104);
        lemma_encoded(false, m, j - 104);
        j
    }
}

pub proof fn lemma_nearest_bounds(a: nat, b: nat)
    requires
        b > 0,
    ensures
        a / b <= nearest_int(a, b) <= a / b + 1,
        2 * (nearest_int(a, b) * b) <= 2 * a + b,
{
    div_mod::lemma_fundamental_div_mod(a as int, b as int);
    let q = a / b;
    let r = a % b;
    let m = nearest_int(a, b);
    assert(b * q + r == a);
    assert(2 * (m * b) <= 2 * a + b) by (nonlinear_arith)
        requires
            b * q + r == a,
            m == q || (m == q + 1 && 2 * r >= b),
            r >= 0,
            b > 0,
    ;
}

/// The parts of the product of two normal significands.
proof fn lemma_product_scale(p: nat) -> (s: nat)
    requires
        0x10_0000_0000_0000 * 0x10_0000_0000_0000 <= p < 0x20_0000_0000_0000
            * 0x20_0000_0000_0000,
    ensures
        s == 52 || s == 53,
        floor_log2(p, 1) == s + 52,
        0x10_0000_0000_0000 * power2::pow2(s) <= p < 0x20_0000_0000_0000 * power2::pow2(s),
{
    power2::lemma2_to64_rest();
    power2::lemma_pow2_adds(52, 52);
    power2::lemma_pow2_adds(52, 53);
    power2::lemma_pow2_adds(53, 53);
    let t: nat = if p >= power2::pow2(105) {
        105
    } else {
        104
    };
    assert(1 * power2::pow2(104) == power2::pow2(104));
    assert(1 * power2::pow2(105) == power2::pow2(105));
    assert(1 * power2::pow2(106) == power2::pow2(106));
    assert(at_least_pow2(p, 1, t as int));
    assert(!at_least_pow2(p, 1, t as int + 1));
    lemma_floor_log2(p, 1, t as int);
    (t - 52) as nat
}

/// A number of 53 bits whose value is below an integer has an integer part below
/// it.
proof fn lemma_integer_part_below(m: nat, k: int, w: nat)
    requires
        0x10_0000_0000_0000 <= m <= 0x20_0000_0000_0000,
        -1000 <= k <= 0,
        m < w * power2::pow2((-k) as nat),
        w < 0x20_0000_0000_0000,
    ensures
        0 <= integer_part(encode(false, m, k)) < w,
{
    lemma_encoded(false, m, k);
    power2::lemma2_to64();
    let pk = power2::pow2((-k) as nat);
    power2::lemma_pow2_pos((-k) as nat);
    if k == 0 {
        assert(w * pk == w) by (nonlinear_arith)
            requires
                pk == 1,
        ;
        lemma_times_pow2_0(m as int);
    } else if m < 0x20_0000_0000_0000 {
        assert(w * pk == pk * w) by (nonlinear_arith);
        lemma_div_bound(m, pk, w);
    } else {
        let h = power2::pow2((-k - 1) as nat);
        power2::lemma_pow2_adds(1, (-k - 1) as nat);
        assert(pk == 2 * h);
        power2::lemma_pow2_pos((-k - 1) as nat);
        assert(0x10_0000_0000_0000 < h * w) by (nonlinear_arith)
            requires
                0x20_0000_0000_0000 < w * pk,
                pk == 2 * h,
        ;
        if k == -1 {
            assert(h == 1);
            assert(h * w == w) by (nonlinear_arith)
                requires
                    h == 1,
            ;
            lemma_times_pow2_0(0x10_0000_0000_0000);
        } else {
            lemma_div_bound(0x10_0000_0000_0000, h, w);
        }
    }
}

/// The product of binary places `f / 2^52` and an integer `w` of up to 53 bits
/// is below `w`, however it is rounded.
pub proof fn lemma_product_below(d: Double, f: nat, j: nat, w: nat)
    requires
        0 < f < 0x10_0000_0000_0000,
        j < 52,
        !is_neg(d),
        is_finite(d),
        significand(d) == f * power2::pow2((52 - j) as nat),
        exponent(d) == j - 104,
        0x10_0000_0000_0000 <= significand(d) < 0x20_0000_0000_0000,
        0 < w < 0x20_0000_0000_0000,
    ensures
        is_finite(d.times(Double::of(w as int))),
        !is_neg(d.times(Double::of(w as int))),
        0 <= integer_part(d.times(Double::of(w as int))) < w,
{
    reveal(Double::times);
    reveal(round);
    power2::lemma2_to64();
    power2::lemma2_to64_rest();
    let jw = lemma_of(w);
    if jw == 53 {
        assert(power2::pow2(53) == 0x20_0000_0000_0000);
    }
    let x = Double::of(w as int);
    let a = (52 - j) as nat;
    let b = (52 - jw) as nat;
    let (pa, pb) = (power2::pow2(a), power2::pow2(b));
    let (sd, sw) = (significand(d), significand(x));
    let p = (sd * sw) as nat;
    assert(0x10_0000_0000_0000 * 0x10_0000_0000_0000 <= p < 0x20_0000_0000_0000
        * 0x20_0000_0000_0000) by (nonlinear_arith)
        requires
            0x10_0000_0000_0000 <= sd < 0x20_0000_0000_0000,
            0x10_0000_0000_0000 <= sw < 0x20_0000_0000_0000,
            p == sd * sw,
    ;
    let s = lemma_product_scale(p);
    let e = exponent(d) + exponent(x);
    let k = e + s;
    let big = power2::pow2(s);
    power2::lemma_pow2_pos(s);
    assert(1 * big == big);
    let m = nearest_int(p, big);
    lemma_nearest_bounds(p, big);
    assert(0x10_0000_0000_0000 <= p / big) by {
        div_mod::lemma_div_is_ordered(
            (0x10_0000_0000_0000 * big) as int,
            p as int,
            big as int,
        );
        div_mod::lemma_div_multiples_vanish(0x10_0000_0000_0000, big as int);
        assert(big * 0x10_0000_0000_0000 == 0x10_0000_0000_0000 * big);
    }
    lemma_div_bound(p, big, 0x20_0000_0000_0000);
    assert(0x10_0000_0000_0000 <= m <= 0x20_0000_0000_0000);
    assert(d.times(x) == encode(false, m, k));
    lemma_encoded(false, m, k);
    // In units of 2^e the integer is `t`; the product stays a whole unit of its
    // last place below it.
    let h = 0x10_0000_0000_0000nat;
    let ee = (a + b + 52) as nat;
    power2::lemma_pow2_adds(a, b);
    power2::lemma_pow2_adds(a + b, 52);
    let t = w * power2::pow2(ee);
    assert(f * t == p * h) by (nonlinear_arith)
        requires
            t == w * ((pa * pb) * h),
            p == (f * pa) * (w * pb),
    ;
    assert(h * (t - p) >= t) by (nonlinear_arith)
        requires
            f * t == p * h,
            f <= h - 1,
            t >= 0,
    ;
    assert(t >= p) by (nonlinear_arith)
        requires
            h * (t - p) >= t,
            t >= 0,
            h > 0,
    ;
    assert(t - p >= big) by (nonlinear_arith)
        requires
            h * (t - p) >= t,
            t >= p,
            p >= h * big,
            h > 0,
    ;
    assert(m * big < t) by (nonlinear_arith)
        requires
            2 * (m * big) <= 2 * p + big,
            t - p >= big,
            big > 0,
    ;
    assert(ee >= s);
    let pk = power2::pow2((ee - s) as nat);
    power2::lemma_pow2_adds((ee - s) as nat, s);
    assert(m < w * pk) by (nonlinear_arith)
        requires
            m * big < t,
            t == w * (pk * big),
            big > 0,
    ;
    lemma_integer_part_below(m, k, w);
}

/// No binary places times an integer is nothing.
pub proof fn lemma_zero_product(d: Double, w: nat)
    requires
        !is_neg(d),
        is_finite(d),
        significand(d) == 0,
        0 < w < 0x20_0000_0000_0000,
    ensures
        is_finite(d.times(Double::of(w as int))),
        !is_neg(d.times(Double::of(w as int))),
        integer_part(d.times(Double::of(w as int))) == 0,
{
    reveal(Double::times);
    reveal(round);
    let j = lemma_of(w);
    let sw = significand(Double::of(w as int));
    assert(0 * sw == 0);
    let z = encode(false, 0, -1074);
    assert(z.bits == 0);
    power2::lemma_pow2_pos(1074);
    div_mod::lemma_basic_div(0, power2::pow2(1074) as int);
}

/// The difference to 1 of a number in `[1, 2)` lies in `[0, 1)`.
pub proof fn lemma_unit_interval(u: Double, f: nat)
    requires
        f < 0x10_0000_0000_0000,
        u.bits == 0x3ff0_0000_0000_0000 + f,
    ensures
        Double::of(0).at_most(u.minus(Double::of(1))),
        u.minus(Double::of(1)).below(Double::of(1)),
{
    reveal(Double::below);
    reveal(Double::same_value);
    power2::lemma2_to64();
    power2::lemma2_to64_rest();
    let j = lemma_places(u, f);
    let i = lemma_of(1);
    assert(i == 0) by {
        if i > 0 {
            power2::lemma_pow2_strictly_increases(0, i);
        }
    }
    let d = u.minus(Double::of(1));
    let one = Double::of(1);
    let zero = Double::of(0);
    assert(zero == encode(false, 0, -1074)) by {
        reveal(round);
    }
    assert(zero.bits == 0);
    assert(units(zero) == 0) by {
        assert(0 * power2::pow2(0) == 0);
    }
    assert(significand(one) == 0x10_0000_0000_0000) by {
        assert(1 * power2::pow2(52) == 0x10_0000_0000_0000);
    }
    let po = power2::pow2(1022);
    power2::lemma_pow2_pos(1022);
    assert(units(one) == 0x10_0000_0000_0000 * po);
    assert(0x10_0000_0000_0000 * po > 0) by (nonlinear_arith)
        requires
            po > 0,
    ;
    if f == 0 {
        assert(units(d) == 0) by {
            assert(0 * power2::pow2(0) == 0);
        }
    } else {
        let sd = significand(d);
        let pd = power2::pow2((j + 970) as nat);
        power2::lemma_pow2_pos((j + 970) as nat);
        assert(units(d) == sd * pd);
        power2::lemma_pow2_adds(1, 1021);
        let half = power2::pow2(1021);
        if j + 970 < 1021 {
            power2::lemma_pow2_strictly_increases((j + 970) as nat, 1021);
        }
        assert(sd * pd > 0) by (nonlinear_arith)
            requires
                sd > 0,
                pd > 0,
        ;
        assert(sd * pd < 0x10_0000_0000_0000 * po) by (nonlinear_arith)
            requires
                0 < sd < 0x20_0000_0000_0000,
                0 < pd <= half,
                po == 2 * half,
        ;
    }
}

/// Nothing times nothing, rounded down, is nothing.
pub proof fn lemma_zero()
    ensures
        Double::of(0).times(Double::of(0)).floored() == Double::of(0),
        Double::of(0).bits == 0,
{
    reveal(Double::times);
    reveal(Double::floored);
    reveal(round);
    let z = encode(false, 0, -1074);
    assert(z.bits == 0);
    assert(0 * 0 == 0);
    power2::lemma_pow2_pos(1074);
    div_mod::lemma_basic_div(0, power2::pow2(1074) as int);
}

/// Doubling a number and halving it again gives it back, where neither leaves
/// the normal numbers.
pub proof fn lemma_double_and_halve(x: Double)
    requires
        is_finite(x),
        significand(x) >= 0x10_0000_0000_0000,
        -1074 <= exponent(x) < 969,
    ensures
        x.times(Double::of(2)).over(Double::of(2)) == x,
{
    reveal(Double::times);
    reveal(Double::over);
    power2::lemma2_to64();
    power2::lemma2_to64_rest();
    let j = lemma_of(2);
    assert(j == 1) by {
        if j > 1 {
            power2::lemma_pow2_strictly_increases(1, j);
        }
    }
    let two = Double::of(2);
    let h = 0x10_0000_0000_0000nat;
    assert(significand(two) == h) by {
        assert(2 * power2::pow2(51) == h);
    }
    let s = significand(x) as nat;
    let e = exponent(x);
    let neg = is_neg(x);
    lemma_encode_parts(x);
    assert(is_scaled((s * h) as nat, 1, s, 52)) by (nonlinear_arith)
        requires
            power2::pow2(52) == h,
            is_scaled((s * h) as nat, 1, s, 52) == ((s * h) as nat == 1 * s * power2::pow2(52)),
    ;
    lemma_round_exact(neg, (s * h) as nat, 1, e - 51, s, e + 1);
    lemma_encoded(neg, s, e + 1);
    let y = encode(neg, s, e + 1);
    assert(x.times(two) == y);
    assert(is_scaled(s, h, s, -52)) by (nonlinear_arith)
        requires
            power2::pow2(52) == h,
            is_scaled(s, h, s, -52) == (s * power2::pow2(52) == h * s),
    ;
    lemma_round_exact(neg, s, h, e + 52, s, e);
}

/// Adding no steps to an integer, and taking at least 0 or 1, changes nothing.
pub proof fn lemma_no_steps(base: nat, step: nat, least: nat)
    requires
        0 < base < 0x20_0000_0000_0000,
        step < 0x20_0000_0000_0000,
        least <= 1,
    ensures
        Double::of(base as int).plus(
            Double::of(step as int).times(Double::of(1).minus(Double::of(1))),
        ).larger(Double::of(least as int)) == Double::of(base as int),
{
    reveal(Double::plus);
    reveal(Double::times);
    reveal(Double::below);
    let b = Double::of(base as int);
    let one = Double::of(1);
    let zero = encode(false, 0, -1074);
    assert(zero.bits == 0);
    lemma_zero();
    let j = lemma_of(1);
    let _ = lemma_of(base);
    lemma_encode_parts(b);
    assert(round(false, 0, 1, 0) == zero) by {
        reveal(round);
    }
    assert(one.minus(one) == zero) by {
        let x = significand(one) * power2::pow2((exponent(one) - exponent(one)) as nat);
        assert(exact_sum(one, one.negated()) == x - x);
    }
    let t = Double::of(step as int);
    if step > 0 {
        let _ = lemma_of(step);
    }
    assert(t.times(zero) == zero) by {
        assert(significand(t) * 0 == 0);
        reveal(round);
    }
    let m = significand(b) as nat;
    let k = exponent(b);
    let w = power2::pow2((k + 1074) as nat);
    power2::lemma_pow2_pos((k + 1074) as nat);
    assert(m * w > 0) by (nonlinear_arith)
        requires
            m > 0,
            w > 0,
    ;
    assert(b.plus(zero) == b) by {
        assert(0 * power2::pow2(0) == 0);
        assert(exact_sum(b, zero) == m * w);
        assert(1 * m * w == m * w) by (nonlinear_arith);
        lemma_round_exact(false, (m * w) as nat, 1, -1074, m, k);
    }
    assert(units(b) == m * w);
    if least == 1 {
        let v = power2::pow2((exponent(one) + 1074) as nat);
        if exponent(one) < k {
            power2::lemma_pow2_strictly_increases(
                (exponent(one) + 1074) as nat,
                (k + 1074) as nat,
            );
        }
        assert(j == 0) by {
            if j > 0 {
                power2::lemma2_to64();
                power2::lemma_pow2_strictly_increases(0, j);
            }
        }
        power2::lemma2_to64();
        power2::lemma2_to64_rest();
        assert(significand(one) == 0x10_0000_0000_0000);
        assert(exponent(one) <= k);
        assert(0x10_0000_0000_0000 * v <= m * w) by (nonlinear_arith)
            requires
                0x10_0000_0000_0000 <= m,
                0 <= v <= w,
        ;
    } else {
        assert(0 * power2::pow2(0) == 0);
        assert(units(zero) == 0);
    }
}

// ---- numbers without a sign ----------------------------------------------

/// Not below zero, or NaN.
pub open spec fn is_unsigned(a: Double) -> bool {
    is_nan(a) || a.bits <= 0x7ff0_0000_0000_0000
}

/// One or more, and infinity at most.
pub open spec fn is_one_or_more(a: Double) -> bool {
    0x3ff0_0000_0000_0000 <= a.bits <= 0x7ff0_0000_0000_0000
}

proof fn lemma_pow2_exceeds(k: nat)
    ensures
        power2::pow2(k) > k,
    decreases k,
{
    if k == 0 {
        power2::lemma2_to64();
    } else {
        lemma_pow2_exceeds((k - 1) as nat);
        power2::lemma_pow2_unfold(k);
    }
}

proof fn lemma_scan_log2(n: nat, d: nat, lo: int, hi: int) -> (t: int)
    requires
        at_least_pow2(n, d, lo),
        !at_least_pow2(n, d, hi),
        lo < hi,
    ensures
        at_least_pow2(n, d, t),
        !at_least_pow2(n, d, t + 1),
    decreases hi - lo,
{
    if !at_least_pow2(n, d, lo + 1) {
        lo
    } else {
        lemma_scan_log2(n, d, lo + 1, hi)
    }
}

proof fn lemma_has_log2(n: nat, d: nat) -> (t: int)
    requires
        n > 0,
        d > 0,
    ensures
        at_least_pow2(n, d, t),
        !at_least_pow2(n, d, t + 1),
{
    lemma_pow2_exceeds(n);
    lemma_pow2_exceeds(d);
    let pn = power2::pow2(n);
    let pd = power2::pow2(d);
    assert(n < d * pn) by (nonlinear_arith)
        requires
            n < pn,
            d > 0,
    ;
    assert(n * pd >= d) by (nonlinear_arith)
        requires
            d < pd,
            n > 0,
    ;
    lemma_scan_log2(n, d, -(d as int), n as int)
}

/// Rounding gives no sign where there was none, and keeps what is one or more
/// at one or more.
proof fn lemma_round_unsigned(n: nat, d: nat, e: int)
    requires
        d > 0,
    ensures
        round(false, n, d, e).bits <= 0x7ff0_0000_0000_0000,
        n > 0 && at_least_pow2(n, d, -e) ==> is_one_or_more(round(false, n, d, e)),
{
    reveal(round);
    if n > 0 {
        let t = lemma_has_log2(n, d);
        lemma_floor_log2(n, d, t);
        let k0 = e + t - 52;
        let k = if k0 < -1074 {
            -1074
        } else {
            k0
        };
        if k <= 971 {
            let s = k - e;
            lemma_fits_53(n, d, t, s);
            let (a, b) = if s >= 0 {
                (n, d * power2::pow2(s as nat))
            } else {
                (n * power2::pow2((-s) as nat), d)
            };
            assert(b > 0) by {
                if s >= 0 {
                    let w = power2::pow2(s as nat);
                    power2::lemma_pow2_pos(s as nat);
                    assert(d * w > 0) by (nonlinear_arith)
                        requires
                            d > 0,
                            w > 0,
                    ;
                }
            }
            lemma_div_bound(a, b, 0x20_0000_0000_0000);
            lemma_nearest_bounds(a, b);
            assert(nearest_multiple(n, d, s) <= 0x20_0000_0000_0000);
            if at_least_pow2(n, d, -e) {
                assert(t >= -e) by {
                    if t < -e {
                        lemma_at_least_mono(n, d, t + 1, -e);
                    }
                }
                lemma_full_53(n, d, t);
                let q = a / b;
                let r = a % b;
                div_mod::lemma_fundamental_div_mod(a as int, b as int);
                assert(q >= 0x10_0000_0000_0000) by (nonlinear_arith)
                    requires
                        a == b * q + r,
                        r < b,
                        a >= 0x10_0000_0000_0000 * b,
                ;
            }
        }
    }
}

/// A quotient in units of 52 places below its logarithm fills them.
pub proof fn lemma_full_53(n: nat, d: nat, t: int)
    requires
        d > 0,
        at_least_pow2(n, d, t),
    ensures
        t >= 52 ==> n >= 0x10_0000_0000_0000 * (d * power2::pow2((t - 52) as nat)),
        t < 52 ==> n * power2::pow2((52 - t) as nat) >= 0x10_0000_0000_0000 * d,
{
    power2::lemma2_to64();
    power2::lemma2_to64_rest();
    let h = 0x10_0000_0000_0000nat;
    if t >= 52 {
        let w = power2::pow2((t - 52) as nat);
        power2::lemma_pow2_adds(52, (t - 52) as nat);
        assert(d * (h * w) == h * (d * w)) by (nonlinear_arith);
    } else if t >= 0 {
        let w = power2::pow2(t as nat);
        let v = power2::pow2((52 - t) as nat);
        power2::lemma_pow2_adds(t as nat, (52 - t) as nat);
        assert(n * v >= h * d) by (nonlinear_arith)
            requires
                n >= d * w,
                w * v == h,
                v >= 0,
        ;
    } else {
        let w = power2::pow2((-t) as nat);
        let v = power2::pow2((52 - t) as nat);
        power2::lemma_pow2_adds(52, (-t) as nat);
        assert(n * v >= h * d) by (nonlinear_arith)
            requires
                n * w >= d,
                v == h * w,
        ;
    }
}

/// The integers from 1 on are one or more.
pub proof fn lemma_of_unsigned(n: nat)
    ensures
        Double::of(n as int).bits <= 0x7ff0_0000_0000_0000,
        n > 0 ==> is_one_or_more(Double::of(n as int)),
{
    lemma_round_unsigned(n, 1, 0);
    power2::lemma2_to64();
}

pub proof fn lemma_frac_unsigned(n: nat, d: nat)
    requires
        d > 0,
    ensures
        Double::frac(n, d).bits <= 0x7ff0_0000_0000_0000,
{
    lemma_round_unsigned(n, d, 0);
}

pub proof fn lemma_times_unsigned(a: Double, b: Double)
    requires
        is_unsigned(a),
        is_unsigned(b),
    ensures
        is_unsigned(a.times(b)),
        is_one_or_more(a) && is_one_or_more(b) ==> is_one_or_more(a.times(b)),
{
    reveal(Double::times);
    if is_finite(a) && is_finite(b) {
        let x = significand(a);
        let y = significand(b);
        let e = exponent(a) + exponent(b);
        assert(x * y >= 0) by (nonlinear_arith)
            requires
                x >= 0,
                y >= 0,
        ;
        lemma_round_unsigned((x * y) as nat, 1, e);
        if is_one_or_more(a) && is_one_or_more(b) {
            let h = 0x10_0000_0000_0000int;
            assert(x >= h && y >= h && e >= -104);
            assert(x * y >= h * h) by (nonlinear_arith)
                requires
                    x >= h,
                    y >= h,
                    h == 0x10_0000_0000_0000int,
            ;
            lemma_at_least_104((x * y) as nat, e);
        }
    }
}

proof fn lemma_at_least_104(n: nat, e: int)
    requires
        n >= 0x10_0000_0000_0000 * 0x10_0000_0000_0000,
        e >= -104,
    ensures
        at_least_pow2(n, 1, -e),
{
    if e <= 0 {
        power2::lemma2_to64();
        power2::lemma2_to64_rest();
        power2::lemma_pow2_adds(52, 52);
        if -e < 104 {
            power2::lemma_pow2_strictly_increases((-e) as nat, 104);
        }
    } else {
        power2::lemma_pow2_pos(e as nat);
        let w = power2::pow2(e as nat);
        assert(n * w >= 1) by (nonlinear_arith)
            requires
                n >= 1,
                w >= 1,
        ;
    }
}

pub proof fn lemma_over_unsigned(a: Double, b: Double)
    requires
        is_unsigned(a),
        is_unsigned(b),
    ensures
        is_unsigned(a.over(b)),
{
    reveal(Double::over);
    lemma_round_unsigned(0, 1, 0);
    if is_finite(a) && is_finite(b) && significand(b) != 0 {
        lemma_round_unsigned(
            significand(a) as nat,
            significand(b) as nat,
            exponent(a) - exponent(b),
        );
    }
}

/// A sum with something of one or more is one or more.
pub proof fn lemma_plus_one_or_more(a: Double, b: Double)
    requires
        is_unsigned(a),
        is_one_or_more(b),
    ensures
        is_nan(a.plus(b)) || is_one_or_more(a.plus(b)),
{
    reveal(Double::plus);
    if is_finite(a) && is_finite(b) {
        let e = if exponent(a) <= exponent(b) {
            exponent(a)
        } else {
            exponent(b)
        };
        let s = exact_sum(a, b);
        let x = significand(a) * power2::pow2((exponent(a) - e) as nat);
        let w = power2::pow2((exponent(b) - e) as nat);
        let y = significand(b) * w;
        power2::lemma_pow2_pos((exponent(a) - e) as nat);
        power2::lemma_pow2_pos((exponent(b) - e) as nat);
        let wa = power2::pow2((exponent(a) - e) as nat);
        assert(significand(a) * wa >= 0) by (nonlinear_arith)
            requires
                significand(a) >= 0,
                wa > 0,
        ;
        assert(s == x + y);
        let h = 0x10_0000_0000_0000int;
        assert(significand(b) >= h);
        assert(y >= h * w) by (nonlinear_arith)
            requires
                y == significand(b) * w,
                significand(b) >= h,
                w > 0,
        ;
        assert(at_least_pow2(s as nat, 1, -e)) by {
            power2::lemma2_to64();
            power2::lemma2_to64_rest();
            if e <= 0 {
                power2::lemma_pow2_adds(52, (exponent(b) - e) as nat);
                let top = (52 + exponent(b) - e) as nat;
                if (-e) as nat != top {
                    power2::lemma_pow2_strictly_increases((-e) as nat, top);
                }
            } else {
                power2::lemma_pow2_pos(e as nat);
                let v = power2::pow2(e as nat);
                assert(s * v >= 1) by (nonlinear_arith)
                    requires
                        s >= 1,
                        v >= 1,
                ;
            }
        }
        lemma_round_unsigned(s as nat, 1, e);
    }
}

/// The fraction of a number of one or more lies in `[0, 1)`, or is NaN.
pub proof fn lemma_fraction(x: Double)
    requires
        is_nan(x) || is_one_or_more(x),
    ensures
        is_nan(x.minus(x.floored())) || {
            &&& !is_neg(x.minus(x.floored()))
            &&& Double::of(0).at_most(x.minus(x.floored()))
            &&& x.minus(x.floored()).below(Double::of(1))
        },
{
    reveal(Double::plus);
    reveal(Double::floored);
    reveal(Double::below);
    reveal(Double::same_value);
    power2::lemma2_to64();
    power2::lemma2_to64_rest();
    let f = x.floored();
    let d = x.minus(f);
    let zero = Double::of(0);
    lemma_zero();
    assert(units(zero) == 0) by {
        assert(0 * power2::pow2(0) == 0);
    }
    let one = Double::of(1);
    let i = lemma_of(1);
    assert(i == 0) by {
        if i > 0 {
            power2::lemma_pow2_strictly_increases(0, i);
        }
    }
    let h = 0x10_0000_0000_0000int;
    let po = power2::pow2(1022);
    power2::lemma_pow2_pos(1022);
    assert(units(one) == h * po);
    assert(h * po > 0) by (nonlinear_arith)
        requires
            po > 0,
            h > 0,
    ;
    assert(round(false, 0, 1, 0) == zero);
    if is_finite(x) {
        let m = significand(x);
        let e = exponent(x);
        if e >= 0 {
            let w = m * power2::pow2((e - e) as nat);
            assert(exact_sum(x, x.negated()) == w - w);
            assert(d == zero);
        } else {
            lemma_fraction_parts(x);
        }
    }
}

proof fn lemma_fraction_parts(x: Double)
    requires
        is_one_or_more(x),
        is_finite(x),
        exponent(x) < 0,
    ensures
        !is_neg(x.minus(x.floored())),
        !is_nan(x.minus(x.floored())),
        0 <= units(x.minus(x.floored())) < units(Double::of(1)),
{
    reveal(Double::plus);
    reveal(Double::floored);
    power2::lemma2_to64();
    power2::lemma2_to64_rest();
    let m = significand(x);
    let e = exponent(x);
    let t = (-e) as nat;
    let h = 0x10_0000_0000_0000int;
    assert(h <= m < 2 * h && 0 < t <= 52);
    let p = power2::pow2(t);
    let c = power2::pow2((52 - t) as nat);
    power2::lemma_pow2_pos(t);
    power2::lemma_pow2_pos((52 - t) as nat);
    power2::lemma_pow2_adds((52 - t) as nat, t);
    power2::lemma_pow2_unfold((53 - t) as nat);
    let q = m / (p as int);
    let r = m % (p as int);
    div_mod::lemma_fundamental_div_mod(m, p as int);
    assert(q * p == p * q) by (nonlinear_arith);
    assert(c <= q < 2 * c) by (nonlinear_arith)
        requires
            m == p * q + r,
            0 <= r < p,
            p * c == h,
            h <= m < 2 * h,
            p > 0,
    ;
    let j = lemma_of(q as nat);
    assert(j == 52 - t) by {
        if j < 52 - t {
            if j + 1 < 52 - t {
                power2::lemma_pow2_strictly_increases(j + 1, (52 - t) as nat);
            }
        } else if j > 52 - t {
            if j > 53 - t {
                power2::lemma_pow2_strictly_increases((53 - t) as nat, j);
            }
        }
    }
    let f = Double::of(q);
    assert(x.floored() == f);
    assert(significand(f) == q * p);
    assert(exponent(f) == e);
    let g = f.negated();
    assert(significand(g) == q * p && exponent(g) == e && is_neg(g) && is_finite(g));
    let one_unit = power2::pow2((e - e) as nat);
    assert(one_unit == 1);
    assert(m * 1 == m);
    assert((q * p) * 1 == q * p);
    assert(exact_sum(x, g) == r);
    let o = lemma_of(1);
    assert(o == 0) by {
        if o > 0 {
            power2::lemma_pow2_strictly_increases(0, o);
        }
    }
    let po = power2::pow2(1022);
    power2::lemma_pow2_pos(1022);
    assert(units(Double::of(1)) == h * po);
    if r == 0 {
        assert(h * po > 0) by (nonlinear_arith)
            requires
                po > 0,
                h > 0,
        ;
        assert(round(false, 0, 1, 0).bits == 0) by {
            reveal(round);
        }
        assert(0 * power2::pow2(0) == 0);
    } else {
        let i = lemma_log2(r as nat);
        assert(i < t) by {
            if i >= t {
                if i > t {
                    power2::lemma_pow2_strictly_increases(t, i);
                }
            }
        }
        let u = (52 - i) as nat;
        let pu = power2::pow2(u);
        power2::lemma_pow2_pos(u);
        power2::lemma_pow2_adds(i, u);
        power2::lemma_pow2_unfold(i + 1);
        let pi = power2::pow2(i);
        let n = r * pu;
        assert(h <= n < 2 * h) by (nonlinear_arith)
            requires
                n == r * pu,
                pi <= r < 2 * pi,
                pi * pu == h,
                pu > 0,
        ;
        let k = e - u;
        assert(is_scaled(r as nat, 1, n as nat, k - e));
        lemma_round_exact(false, r as nat, 1, e, n as nat, k);
        lemma_encoded(false, n as nat, k);
        let d = x.minus(x.floored());
        assert(d == encode(false, n as nat, k));
        let wk = power2::pow2((k + 1074) as nat);
        power2::lemma_pow2_pos((k + 1074) as nat);
        assert(units(d) == n * wk);
        let half = power2::pow2(1021);
        power2::lemma_pow2_unfold(1022);
        if k + 1074 < 1021 {
            power2::lemma_pow2_strictly_increases((k + 1074) as nat, 1021);
        }
        assert(0 <= n * wk < h * po) by (nonlinear_arith)
            requires
                0 < n < 2 * h,
                0 < wk <= half,
                po == 2 * half,
        ;
    }
}

} // verus!
