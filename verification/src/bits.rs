//! Floating-point numbers by their bits: carried through, ordered and clamped,
//! never computed with.

use vstd::arithmetic::power2::pow2;
use vstd::prelude::*;

verus! {

/// A 64-bit float in its IEEE 754 bits.
#[derive(Clone, Copy, Debug, PartialEq, Eq, Structural)]
pub struct Double {
    pub bits: u64,
}

/// A 32-bit float in its IEEE 754 bits.
#[derive(Clone, Copy, Debug, PartialEq, Eq, Structural)]
pub struct Single {
    pub bits: u32,
}

/// Zero.
pub open spec fn double_zero() -> Double {
    Double { bits: 0 }
}

/// One.
pub open spec fn double_one() -> Double {
    Double { bits: 0x3ff0_0000_0000_0000 }
}

/// Zero.
pub open spec fn single_zero() -> Single {
    Single { bits: 0 }
}

/// One.
pub open spec fn single_one() -> Single {
    Single { bits: 0x3f80_0000 }
}

impl Double {
    /// Not a number: above an infinity of either sign.
    pub open spec fn nan(self) -> bool {
        0x7ff0_0000_0000_0000 < self.bits < 0x8000_0000_0000_0000 || self.bits
            > 0xfff0_0000_0000_0000
    }

    /// A number that is in the same order as the value; the two zeros share
    /// one.
    pub open spec fn rank(self) -> int {
        if self.bits < 0x8000_0000_0000_0000 {
            self.bits as int
        } else {
            0x8000_0000_0000_0000 - self.bits
        }
    }

    /// `self < other`.
    pub open spec fn below(self, other: Double) -> bool {
        !self.nan() && !other.nan() && self.rank() < other.rank()
    }

    /// `self == other`.
    pub open spec fn equals(self, other: Double) -> bool {
        !self.nan() && !other.nan() && self.rank() == other.rank()
    }

    /// `self`, moved to the nearer end if it lies outside.
    pub open spec fn clamped(self, low: Double, high: Double) -> Double {
        if self.below(low) {
            low
        } else if high.below(self) {
            high
        } else {
            self
        }
    }

    pub fn zero() -> (x: Double)
        ensures
            x == double_zero(),
    {
        Double { bits: 0 }
    }

    pub fn one() -> (x: Double)
        ensures
            x == double_one(),
    {
        Double { bits: 0x3ff0_0000_0000_0000 }
    }

    pub fn is_nan(self) -> (yes: bool)
        ensures
            yes == self.nan(),
    {
        (0x7ff0_0000_0000_0000 < self.bits && self.bits < 0x8000_0000_0000_0000) || self.bits
            > 0xfff0_0000_0000_0000
    }

    fn key(self) -> (k: i128)
        ensures
            k == self.rank(),
    {
        if self.bits < 0x8000_0000_0000_0000 {
            self.bits as i128
        } else {
            0x8000_0000_0000_0000i128 - self.bits as i128
        }
    }

    pub fn less(self, other: Double) -> (yes: bool)
        ensures
            yes == self.below(other),
    {
        !self.is_nan() && !other.is_nan() && self.key() < other.key()
    }

    pub fn same(self, other: Double) -> (yes: bool)
        ensures
            yes == self.equals(other),
    {
        !self.is_nan() && !other.is_nan() && self.key() == other.key()
    }

    pub fn clamp(self, low: Double, high: Double) -> (r: Double)
        ensures
            r == self.clamped(low, high),
    {
        if self.less(low) {
            low
        } else if high.less(self) {
            high
        } else {
            self
        }
    }
}

impl Single {
    /// Not a number: above an infinity of either sign.
    pub open spec fn nan(self) -> bool {
        0x7f80_0000 < self.bits < 0x8000_0000 || self.bits > 0xff80_0000
    }

    /// A number that is in the same order as the value; the two zeros share
    /// one.
    pub open spec fn rank(self) -> int {
        if self.bits < 0x8000_0000 {
            self.bits as int
        } else {
            0x8000_0000 - self.bits
        }
    }

    /// `self < other`.
    pub open spec fn below(self, other: Single) -> bool {
        !self.nan() && !other.nan() && self.rank() < other.rank()
    }

    /// `self`, moved to the nearer end if it lies outside.
    pub open spec fn clamped(self, low: Single, high: Single) -> Single {
        if self.below(low) {
            low
        } else if high.below(self) {
            high
        } else {
            self
        }
    }

    pub fn zero() -> (x: Single)
        ensures
            x == single_zero(),
    {
        Single { bits: 0 }
    }

    pub fn one() -> (x: Single)
        ensures
            x == single_one(),
    {
        Single { bits: 0x3f80_0000 }
    }

    pub fn is_nan(self) -> (yes: bool)
        ensures
            yes == self.nan(),
    {
        (0x7f80_0000 < self.bits && self.bits < 0x8000_0000) || self.bits > 0xff80_0000
    }

    fn key(self) -> (k: i64)
        ensures
            k == self.rank(),
    {
        if self.bits < 0x8000_0000 {
            self.bits as i64
        } else {
            0x8000_0000i64 - self.bits as i64
        }
    }

    pub fn less(self, other: Single) -> (yes: bool)
        ensures
            yes == self.below(other),
    {
        !self.is_nan() && !other.is_nan() && self.key() < other.key()
    }

    pub fn clamp(self, low: Single, high: Single) -> (r: Single)
        ensures
            r == self.clamped(low, high),
    {
        if self.less(low) {
            low
        } else if high.less(self) {
            high
        } else {
            self
        }
    }
}

/// A clamped number lies in the range, and one that lies there stays as it is.
pub proof fn lemma_double_clamp(x: Double, low: Double, high: Double)
    requires
        !low.nan(),
        !high.nan(),
        low.rank() <= high.rank(),
    ensures
        !x.nan() ==> !x.clamped(low, high).nan() && low.rank() <= x.clamped(low, high).rank()
            <= high.rank(),
        low.rank() <= x.rank() <= high.rank() ==> x.clamped(low, high) == x,
        x.clamped(low, high).clamped(low, high) == x.clamped(low, high),
{
}

/// A clamped number lies in the range, and one that lies there stays as it is.
pub proof fn lemma_single_clamp(x: Single, low: Single, high: Single)
    requires
        !low.nan(),
        !high.nan(),
        low.rank() <= high.rank(),
    ensures
        !x.nan() ==> !x.clamped(low, high).nan() && low.rank() <= x.clamped(low, high).rank()
            <= high.rank(),
        low.rank() <= x.rank() <= high.rank() ==> x.clamped(low, high) == x,
        x.clamped(low, high).clamped(low, high) == x.clamped(low, high),
{
}

/// Doubles are ordered as their bits are, those with the sign bit backwards and
/// below the others; the two zeros are equal, and a NaN, which is everything
/// beyond an infinity, is neither below nor equal to anything.
pub proof fn lemma_double_kinds(a: Double, b: Double, magnitude: u64)
    requires
        magnitude <= 0x7ff0_0000_0000_0000,
    ensures
        ({
            let plus = Double { bits: magnitude };
            let minus = Double { bits: (0x8000_0000_0000_0000 + magnitude) as u64 };
            &&& !plus.nan() && !minus.nan()
            &&& plus.rank() == magnitude && minus.rank() == -magnitude
            &&& magnitude > 0 ==> minus.below(double_zero()) && double_zero().below(plus)
            &&& magnitude == 0 ==> minus.equals(plus)
        }),
        a.nan() ==> !a.below(b) && !b.below(a) && !a.equals(b) && !b.equals(a),
        !a.nan() && !b.nan() ==> a.below(b) || b.below(a) || a.equals(b),
        a.below(b) ==> !b.below(a) && !a.equals(b),
        a.nan() <==> a.bits % 0x8000_0000_0000_0000 > 0x7ff0_0000_0000_0000,
{
}

/// The same of singles.
pub proof fn lemma_single_kinds(a: Single, b: Single, magnitude: u32)
    requires
        magnitude <= 0x7f80_0000,
    ensures
        ({
            let plus = Single { bits: magnitude };
            let minus = Single { bits: (0x8000_0000 + magnitude) as u32 };
            &&& !plus.nan() && !minus.nan()
            &&& plus.rank() == magnitude && minus.rank() == -magnitude
            &&& magnitude > 0 ==> minus.below(single_zero()) && single_zero().below(plus)
        }),
        a.nan() ==> !a.below(b) && !b.below(a),
        a.below(b) ==> !b.below(a),
        a.nan() <==> a.bits % 0x8000_0000 > 0x7f80_0000,
        single_one().bits / 0x80_0000 == 127 && single_one().bits % 0x80_0000 == 0,
{
}

/// The whole part of the binary logarithm.
pub open spec fn log_two(n: nat) -> nat
    decreases n,
{
    if n <= 1 {
        0
    } else {
        1 + log_two(n / 2)
    }
}

/// `n / d` to the nearest whole number, to an even one in the middle.
pub open spec fn nearest_even(n: nat, d: nat) -> nat {
    let q = n / d;
    let r = n % d;
    if 2 * r > d || (2 * r == d && q % 2 == 1) {
        q + 1
    } else {
        q
    }
}

/// Rounding a quotient goes to the nearest whole number; from the middle between
/// two it goes to the even one.
pub proof fn lemma_nearest_even(n: nat, d: nat)
    requires
        d > 0,
    ensures
        2 * (nearest_even(n, d) * d - n) <= d,
        2 * (n - nearest_even(n, d) * d) <= d,
        2 * (n % d) == d ==> nearest_even(n, d) % 2 == 0,
{
    let q = n / d;
    let r = n % d;
    assert(n == q * d + r && 0 <= r < d) by (nonlinear_arith)
        requires
            d > 0,
            q == n / d,
            r == n % d,
    ;
    assert((q + 1) * d == q * d + d) by (nonlinear_arith);
}

/// The 53 leading binary digits of `n`, rounded, as a whole number.
pub open spec fn significand(n: nat) -> nat {
    let e = log_two(n);
    if e <= 52 {
        n * pow2((52 - e) as nat)
    } else {
        nearest_even(n, pow2((e - 52) as nat))
    }
}

/// The double nearest to a whole number.
pub open spec fn double_of(n: nat) -> Double {
    if n == 0 {
        double_zero()
    } else {
        Double {
            bits: ((log_two(n) + 1023) * 0x10_0000_0000_0000 + significand(n)
                - 0x10_0000_0000_0000) as u64,
        }
    }
}

/// The whole part of a double, cut to what 64 bits hold; zero for what is
/// negative or no number.
pub open spec fn whole_of(d: Double) -> nat {
    let e = (d.bits / 0x10_0000_0000_0000) as int - 1023;
    let m = 0x10_0000_0000_0000 + (d.bits % 0x10_0000_0000_0000) as nat;
    if d.nan() || d.bits >= 0x8000_0000_0000_0000 || e < 0 {
        0
    } else if e >= 64 {
        u64::MAX as nat
    } else if e <= 52 {
        m / pow2((52 - e) as nat)
    } else {
        m * pow2((e - 52) as nat)
    }
}

/// The nearest whole number, halves up, within the range of a `u64`.
pub open spec fn rounded_of(d: Double) -> nat {
    let e = (d.bits / 0x10_0000_0000_0000) as int - 1023;
    let m = 0x10_0000_0000_0000 + (d.bits % 0x10_0000_0000_0000) as nat;
    if d.nan() || d.bits >= 0x8000_0000_0000_0000 || e < -1 {
        0
    } else if e < 52 {
        (m + pow2((51 - e) as nat)) / pow2((52 - e) as nat)
    } else {
        whole_of(d)
    }
}

proof fn lemma_log_two(n: nat)
    requires
        n > 0,
    ensures
        pow2(log_two(n)) <= n < pow2(log_two(n) + 1),
    decreases n,
{
    vstd::arithmetic::power2::lemma2_to64();
    if n > 1 {
        lemma_log_two(n / 2);
        vstd::arithmetic::power2::lemma_pow2_unfold(log_two(n));
        vstd::arithmetic::power2::lemma_pow2_unfold(log_two(n) + 1);
    }
}

proof fn lemma_pow2_sum(a: nat, b: nat)
    ensures
        pow2(a + b) == pow2(a) * pow2(b),
        pow2(a) > 0,
{
    vstd::arithmetic::power2::lemma_pow2_adds(a, b);
    vstd::arithmetic::power2::lemma_pow2_pos(a);
}

proof fn lemma_log_two_small(n: nat, k: nat)
    requires
        0 < n < pow2(k),
    ensures
        log_two(n) < k,
{
    lemma_log_two(n);
    if log_two(n) >= k {
        if log_two(n) > k {
            vstd::arithmetic::power2::lemma_pow2_strictly_increases(k, log_two(n));
        }
    }
}

proof fn lemma_significand(n: nat)
    requires
        0 < n <= u64::MAX,
    ensures
        log_two(n) <= 63,
        0x10_0000_0000_0000 <= significand(n) <= 0x20_0000_0000_0000,
        log_two(n) <= 52 ==> significand(n) < 0x20_0000_0000_0000,
{
    vstd::arithmetic::power2::lemma2_to64();
    vstd::arithmetic::power2::lemma2_to64_rest();
    lemma_log_two_small(n, 64);
    lemma_log_two(n);
    let e = log_two(n);
    if e <= 52 {
        let k = (52 - e) as nat;
        lemma_pow2_sum(e, k);
        lemma_pow2_sum(e + 1, k);
        assert(pow2(52) == 0x10_0000_0000_0000);
        assert(pow2(53) == 0x20_0000_0000_0000);
        assert(pow2(e) * pow2(k) <= n * pow2(k) < pow2(e + 1) * pow2(k)) by (nonlinear_arith)
            requires
                pow2(e) <= n < pow2(e + 1),
                pow2(k) > 0,
        ;
    } else {
        let k = (e - 52) as nat;
        let d = pow2(k);
        lemma_pow2_sum(k, 52);
        lemma_pow2_sum(k, 53);
        assert(pow2(52) == 0x10_0000_0000_0000);
        assert(pow2(53) == 0x20_0000_0000_0000);
        assert(n / d >= 0x10_0000_0000_0000 && n / d < 0x20_0000_0000_0000) by (nonlinear_arith)
            requires
                d > 0,
                d * 0x10_0000_0000_0000 <= n,
                n < d * 0x20_0000_0000_0000,
        ;
    }
}

/// A whole number below 2^53 comes back unchanged from the double it became.
pub proof fn lemma_whole_round_trip(n: nat)
    requires
        n < 0x20_0000_0000_0000,
    ensures
        whole_of(double_of(n)) == n,
{
    vstd::arithmetic::power2::lemma2_to64();
    vstd::arithmetic::power2::lemma2_to64_rest();
    if n > 0 {
        assert(pow2(53) == 0x20_0000_0000_0000);
        lemma_log_two_small(n, 53);
        lemma_significand(n);
        let e = log_two(n);
        let m = significand(n);
        let k = (52 - e) as nat;
        let one: int = 0x10_0000_0000_0000;
        let b = (e + 1023) * one + (m - one);
        assert(b / one == e + 1023 && b % one == m - one) by (nonlinear_arith)
            requires
                one > 0,
                b == (e + 1023) * one + (m - one),
                0 <= m - one < one,
        ;
        lemma_pow2_sum(k, 0);
        assert((n * pow2(k)) as int / pow2(k) as int == n) by (nonlinear_arith)
            requires
                pow2(k) > 0,
        ;
    }
}

proof fn lemma_double_bits(n: nat)
    requires
        0 < n < 0x20_0000_0000_0000,
    ensures
        log_two(n) <= 52,
        double_of(n).bits == (log_two(n) + 1022) * 0x10_0000_0000_0000 + significand(n),
        0x10_0000_0000_0000 <= significand(n) < 0x20_0000_0000_0000,
        significand(n) == n * pow2((52 - log_two(n)) as nat),
{
    vstd::arithmetic::power2::lemma2_to64();
    vstd::arithmetic::power2::lemma2_to64_rest();
    assert(pow2(53) == 0x20_0000_0000_0000);
    lemma_log_two_small(n, 53);
    lemma_significand(n);
}

/// Whole numbers keep their order as doubles, zero and one are the doubles that
/// they are named for, and no whole number is a NaN.
pub proof fn lemma_double_order(a: nat, b: nat)
    requires
        a < b < 0x20_0000_0000_0000,
    ensures
        double_of(a).below(double_of(b)),
        double_of(0) == double_zero(),
        double_of(1) == double_one(),
        !double_of(b).nan(),
{
    vstd::arithmetic::power2::lemma2_to64();
    vstd::arithmetic::power2::lemma2_to64_rest();
    lemma_double_bits(b);
    lemma_double_bits(1);
    let eb = log_two(b);
    if a > 0 {
        lemma_double_bits(a);
        let ea = log_two(a);
        lemma_log_two(a);
        lemma_log_two(b);
        if ea > eb {
            if ea > eb + 1 {
                vstd::arithmetic::power2::lemma_pow2_strictly_increases(eb + 1, ea);
            }
            assert(false);
        }
        if ea == eb {
            let k = (52 - ea) as nat;
            lemma_pow2_sum(k, 0);
            assert(a * pow2(k) < b * pow2(k)) by (nonlinear_arith)
                requires
                    a < b,
                    pow2(k) > 0,
            ;
        }
    }
}

/// The whole part of a number is at most the number, and less than one below
/// it: `e` is its exponent, `m` its significand and `unit` what one is worth in
/// the significand.
pub proof fn lemma_whole_is_floor(d: Double, e: int, m: nat, unit: nat)
    requires
        !d.nan(),
        d.bits < 0x8000_0000_0000_0000,
        e == (d.bits / 0x10_0000_0000_0000) as int - 1023,
        m == 0x10_0000_0000_0000 + (d.bits % 0x10_0000_0000_0000) as nat,
        0 <= e <= 52,
        unit == pow2((52 - e) as nat),
    ensures
        whole_of(d) * unit <= m < (whole_of(d) + 1) * unit,
{
    lemma_pow2_sum((52 - e) as nat, 0);
    assert(m / unit * unit <= m < (m / unit + 1) * unit) by (nonlinear_arith)
        requires
            unit > 0,
    ;
}

/// Rounding goes to the nearest whole number, from the middle upwards.
pub proof fn lemma_rounded_is_nearest(d: Double, e: int, m: nat, unit: nat)
    requires
        !d.nan(),
        d.bits < 0x8000_0000_0000_0000,
        e == (d.bits / 0x10_0000_0000_0000) as int - 1023,
        m == 0x10_0000_0000_0000 + (d.bits % 0x10_0000_0000_0000) as nat,
        -1 <= e < 52,
        unit == pow2((52 - e) as nat),
    ensures
        2 * (rounded_of(d) * unit - m) <= unit,
        2 * (m - rounded_of(d) * unit) < unit,
{
    let half = pow2((51 - e) as nat);
    vstd::arithmetic::power2::lemma_pow2_unfold((52 - e) as nat);
    lemma_pow2_sum((51 - e) as nat, 0);
    assert(unit == 2 * half);
    assert((m + half) / unit * unit <= m + half < ((m + half) / unit + 1) * unit) by (
    nonlinear_arith)
        requires
            unit > 0,
            half >= 0,
    ;
    let r = (m + half) / unit;
    assert((r + 1) * unit == r * unit + unit) by (nonlinear_arith);
}

/// A whole number rounds to itself.
pub proof fn lemma_rounded_round_trip(n: nat)
    requires
        n < 0x20_0000_0000_0000,
    ensures
        rounded_of(double_of(n)) == n,
{
    lemma_whole_round_trip(n);
    vstd::arithmetic::power2::lemma2_to64();
    vstd::arithmetic::power2::lemma2_to64_rest();
    if n > 0 {
        lemma_double_bits(n);
        let d = double_of(n);
        let e = log_two(n);
        let m = significand(n);
        let one: int = 0x10_0000_0000_0000;
        assert(d.bits as int / one == e + 1023 && d.bits as int % one == m - one) by (
        nonlinear_arith)
            requires
                one == 0x10_0000_0000_0000,
                d.bits == (e + 1022) * one + m,
                0 <= m - one < one,
        ;
        if e < 52 {
            let unit = pow2((52 - e) as nat);
            lemma_rounded_is_nearest(d, e as int, m, unit);
            let r = rounded_of(d);
            lemma_pow2_sum((52 - e) as nat, 0);
            assert(r == n) by (nonlinear_arith)
                requires
                    2 * (r * unit - m) <= unit,
                    2 * (m - r * unit) < unit,
                    m == n * unit,
                    unit > 0,
            ;
        }
    }
}

fn power_of_two(k: u32) -> (p: u64)
    requires
        k < 64,
    ensures
        p == pow2(k as nat),
{
    proof {
        vstd::arithmetic::power2::lemma2_to64();
        vstd::arithmetic::power2::lemma2_to64_rest();
    }
    let mut p: u64 = 1;
    let mut i: u32 = 0;
    while i < k
        invariant
            i <= k < 64,
            p == pow2(i as nat),
        decreases k - i,
    {
        proof {
            vstd::arithmetic::power2::lemma_pow2_unfold((i + 1) as nat);
            vstd::arithmetic::power2::lemma2_to64();
            vstd::arithmetic::power2::lemma2_to64_rest();
            if i + 1 < 63 {
                vstd::arithmetic::power2::lemma_pow2_strictly_increases((i + 1) as nat, 63);
            }
        }
        p = p * 2;
        i += 1;
    }
    p
}

fn binary_log(n: u64) -> (e: u32)
    requires
        n > 0,
    ensures
        e == log_two(n as nat),
        e <= 63,
{
    let mut e: u32 = 0;
    let mut rest: u64 = n;
    proof {
        lemma_significand(n as nat);
    }
    while rest > 1
        invariant
            rest > 0,
            log_two(n as nat) == e + log_two(rest as nat),
            log_two(n as nat) <= 63,
        decreases rest,
    {
        rest = rest / 2;
        e += 1;
    }
    e
}

impl Double {
    /// The double nearest to a whole number.
    pub fn from_whole(n: u64) -> (d: Double)
        ensures
            d == double_of(n as nat),
    {
        if n == 0 {
            return Double::zero();
        }
        let e: u32 = binary_log(n);
        proof {
            lemma_significand(n as nat);
        }
        let m: u64 = if e <= 52 {
            let p: u64 = power_of_two(52 - e);
            n * p
        } else {
            let d: u64 = power_of_two(e - 52);
            proof {
                vstd::arithmetic::power2::lemma_pow2_pos((e - 52) as nat);
                vstd::arithmetic::power2::lemma2_to64();
                if e - 52 < 12 {
                    vstd::arithmetic::power2::lemma_pow2_strictly_increases((e - 52) as nat, 12);
                }
            }
            let q: u64 = n / d;
            let r: u64 = n % d;
            if 2 * r > d || (2 * r == d && q % 2 == 1) {
                q + 1
            } else {
                q
            }
        };
        Double { bits: (e as u64 + 1023) * 0x10_0000_0000_0000 + (m - 0x10_0000_0000_0000) }
    }

    /// The whole part, the way a cast to an unsigned integer takes it.
    pub fn to_whole(self) -> (n: u64)
        ensures
            n == whole_of(self),
    {
        if self.is_nan() || self.bits >= 0x8000_0000_0000_0000 {
            return 0;
        }
        let field: u64 = self.bits / 0x10_0000_0000_0000;
        let m: u64 = 0x10_0000_0000_0000 + self.bits % 0x10_0000_0000_0000;
        if field < 1023 {
            return 0;
        }
        let e: u64 = field - 1023;
        if e >= 64 {
            return u64::MAX;
        }
        if e <= 52 {
            let p: u64 = power_of_two((52 - e) as u32);
            proof {
                vstd::arithmetic::power2::lemma_pow2_pos((52 - e) as nat);
            }
            m / p
        } else {
            let p: u64 = power_of_two((e - 52) as u32);
            proof {
                vstd::arithmetic::power2::lemma2_to64();
                if e - 52 < 11 {
                    vstd::arithmetic::power2::lemma_pow2_strictly_increases((e - 52) as nat, 11);
                }
                assert(m * p <= 0x1f_ffff_ffff_ffff * 2048) by (nonlinear_arith)
                    requires
                        0 <= m <= 0x1f_ffff_ffff_ffff,
                        0 <= p <= 2048,
                ;
            }
            m * p
        }
    }

    /// The nearest whole number, halves up.
    pub fn to_rounded(self) -> (n: u64)
        ensures
            n == rounded_of(self),
    {
        if self.is_nan() || self.bits >= 0x8000_0000_0000_0000 {
            return 0;
        }
        let field: u64 = self.bits / 0x10_0000_0000_0000;
        let m: u64 = 0x10_0000_0000_0000 + self.bits % 0x10_0000_0000_0000;
        if field < 1022 {
            return 0;
        }
        if field >= 1023 + 52 {
            return self.to_whole();
        }
        let half: u64 = power_of_two((1023 + 51 - field) as u32);
        let unit: u64 = power_of_two((1023 + 52 - field) as u32);
        proof {
            vstd::arithmetic::power2::lemma2_to64();
            vstd::arithmetic::power2::lemma2_to64_rest();
            vstd::arithmetic::power2::lemma_pow2_pos((1023 + 52 - field) as nat);
            if 1023 + 51 - field < 52 {
                vstd::arithmetic::power2::lemma_pow2_strictly_increases(
                    (1023 + 51 - field) as nat,
                    52,
                );
            }
        }
        (m + half) / unit
    }
}

} // verus!
