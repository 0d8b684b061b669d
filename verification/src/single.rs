//! Single-precision numbers, held by their bit patterns.
//!
//! Probabilities, gains and lengths in seconds reach the crate as IEEE 754 binary32
//! values. The order of two of them, and the whole number that a product or a
//! quotient of them is cut to, are stated and computed over integers, so that the
//! thresholds and sample counts below are those that the same operations on the
//! machine's own floating-point numbers give.

use vstd::arithmetic::power2::*;
use vstd::prelude::*;

verus! {

/// An IEEE 754 binary32 value.
#[derive(Clone, Copy, Debug, PartialEq, Eq, Structural)]
pub struct Single {
    /// The bit pattern: sign, eight exponent bits, 23 fraction bits.
    pub bits: u32,
}

/// The bit pattern of positive infinity.
pub const INFINITY_BITS: u32 = 0x7f80_0000;

/// The weight of the sign bit.
pub const SIGN_BIT: u32 = 0x8000_0000;

/// The weight of the lowest exponent bit.
pub const HIDDEN_BIT: u32 = 0x80_0000;

/// The bit pattern of one.
pub const ONE_BITS: u32 = 0x3f80_0000;

impl Single {
    /// The bit pattern without the sign.
    pub open spec fn magnitude(self) -> nat {
        if self.bits >= SIGN_BIT {
            (self.bits - SIGN_BIT) as nat
        } else {
            self.bits as nat
        }
    }

    /// Whether the sign bit is set.
    pub open spec fn negative(self) -> bool {
        self.bits >= SIGN_BIT
    }

    /// Whether the value is not a number.
    pub open spec fn nan(self) -> bool {
        self.magnitude() > INFINITY_BITS
    }

    /// Whether the value is neither infinite nor not a number.
    pub open spec fn finite(self) -> bool {
        self.magnitude() < INFINITY_BITS
    }

    /// A whole number that orders the values that are numbers as they order
    /// themselves; the two zeros share one.
    pub open spec fn rank(self) -> int {
        if self.negative() {
            -(self.magnitude() as int)
        } else {
            self.magnitude() as int
        }
    }

    /// `self >= other`.
    pub open spec fn ge(self, other: Single) -> bool {
        !self.nan() && !other.nan() && self.rank() >= other.rank()
    }

    /// `self > other`.
    pub open spec fn gt(self, other: Single) -> bool {
        !self.nan() && !other.nan() && self.rank() > other.rank()
    }

    /// `self == other` in the order of numbers: false on what is not a number.
    pub open spec fn eqv(self, other: Single) -> bool {
        !self.nan() && !other.nan() && self.rank() == other.rank()
    }

    /// The larger of two; of a number and what is not one, the number.
    pub open spec fn larger(self, other: Single) -> Single {
        if self.nan() {
            other
        } else if other.nan() || self.rank() >= other.rank() {
            self
        } else {
            other
        }
    }

    /// The smaller of two; of a number and what is not one, the number.
    pub open spec fn smaller(self, other: Single) -> Single {
        if self.nan() {
            other
        } else if other.nan() || self.rank() <= other.rank() {
            self
        } else {
            other
        }
    }

    /// The whole number `m` where the magnitude is `m * 2^e`.
    pub open spec fn mant(self) -> nat {
        let field = self.magnitude() / (HIDDEN_BIT as nat);
        let fraction = self.magnitude() % (HIDDEN_BIT as nat);
        if field == 0 {
            fraction
        } else {
            fraction + HIDDEN_BIT as nat
        }
    }

    /// The exponent `e` where the magnitude is `m * 2^e`.
    pub open spec fn exp(self) -> int {
        let field = self.magnitude() / (HIDDEN_BIT as nat);
        if field == 0 {
            -149
        } else {
            field as int - 150
        }
    }

    fn magnitude_bits(self) -> (r: u32)
        ensures
            r == self.magnitude(),
    {
        if self.bits >= SIGN_BIT {
            self.bits - SIGN_BIT
        } else {
            self.bits
        }
    }

    /// Whether the value is not a number.
    pub fn is_nan(self) -> (r: bool)
        ensures
            r == self.nan(),
    {
        self.magnitude_bits() > INFINITY_BITS
    }

    /// Whether the value is neither infinite nor not a number.
    pub fn is_finite(self) -> (r: bool)
        ensures
            r == self.finite(),
    {
        self.magnitude_bits() < INFINITY_BITS
    }

    /// Whether the sign bit is set.
    pub fn is_negative(self) -> (r: bool)
        ensures
            r == self.negative(),
    {
        self.bits >= SIGN_BIT
    }

    fn rank_value(self) -> (r: i64)
        ensures
            r == self.rank(),
    {
        let m: i64 = self.magnitude_bits() as i64;
        if self.bits >= SIGN_BIT {
            -m
        } else {
            m
        }
    }

    /// Whether `self >= other`.
    pub fn at_least(self, other: Single) -> (r: bool)
        ensures
            r == self.ge(other),
    {
        !self.is_nan() && !other.is_nan() && self.rank_value() >= other.rank_value()
    }

    /// Whether `self > other`.
    pub fn above(self, other: Single) -> (r: bool)
        ensures
            r == self.gt(other),
    {
        !self.is_nan() && !other.is_nan() && self.rank_value() > other.rank_value()
    }

    /// Whether the two are the same number.
    pub fn same_number(self, other: Single) -> (r: bool)
        ensures
            r == self.eqv(other),
    {
        !self.is_nan() && !other.is_nan() && self.rank_value() == other.rank_value()
    }

    /// The larger of two; of a number and what is not one, the number.
    pub fn max(self, other: Single) -> (r: Single)
        ensures
            r == self.larger(other),
    {
        if self.is_nan() {
            other
        } else if other.is_nan() || self.rank_value() >= other.rank_value() {
            self
        } else {
            other
        }
    }

    /// The smaller of two; of a number and what is not one, the number.
    pub fn min(self, other: Single) -> (r: Single)
        ensures
            r == self.smaller(other),
    {
        if self.is_nan() {
            other
        } else if other.is_nan() || self.rank_value() <= other.rank_value() {
            self
        } else {
            other
        }
    }
}

/// An IEEE 754 binary64 value.
#[derive(Clone, Copy, Debug, PartialEq, Eq, Structural)]
pub struct Double {
    /// The bit pattern: sign, eleven exponent bits, 52 fraction bits.
    pub bits: u64,
}

/// The bit pattern of positive infinity in double precision.
pub const DOUBLE_INFINITY_BITS: u64 = 0x7ff0_0000_0000_0000;

/// The weight of the sign bit in double precision.
pub const DOUBLE_SIGN_BIT: u64 = 0x8000_0000_0000_0000;

impl Double {
    /// Whether the value is neither infinite nor not a number.
    pub open spec fn finite(self) -> bool {
        if self.bits >= DOUBLE_SIGN_BIT {
            self.bits - DOUBLE_SIGN_BIT < DOUBLE_INFINITY_BITS
        } else {
            self.bits < DOUBLE_INFINITY_BITS
        }
    }

    /// Whether the value is neither infinite nor not a number.
    pub fn is_finite(self) -> (r: bool)
        ensures
            r == self.finite(),
    {
        if self.bits >= DOUBLE_SIGN_BIT {
            self.bits - DOUBLE_SIGN_BIT < DOUBLE_INFINITY_BITS
        } else {
            self.bits < DOUBLE_INFINITY_BITS
        }
    }
}

// --- Non-negative values as a whole number times a power of two ---

/// A non-negative single-precision value `mant * 2^exp`.
#[derive(Clone, Copy, Debug, PartialEq, Eq, Structural)]
pub struct Scaled {
    /// At most 24 significant bits.
    pub mant: u64,
    /// The power of two.
    pub exp: i32,
}

/// One more than the largest number of 24 bits.
pub const MANT_LIMIT: u64 = 0x100_0000;

impl Scaled {
    /// What every operation keeps: 24 significant bits, an exponent far from the
    /// limits of its type.
    pub open spec fn wf(self) -> bool {
        self.mant <= MANT_LIMIT && -1000 <= self.exp <= 1000
    }

    /// Mantissa and exponent as mathematical integers.
    pub open spec fn pair(self) -> (nat, int) {
        (self.mant as nat, self.exp as int)
    }
}

/// How many low bits of `n` lie below its 24 most significant ones.
pub open spec fn spare_bits(n: nat) -> nat
    decreases n,
{
    if n < MANT_LIMIT {
        0
    } else {
        1 + spare_bits(n / 2)
    }
}

/// `n / unit` rounded to the nearest whole number, to the even one at a tie.
pub open spec fn nearest(n: nat, unit: nat) -> nat {
    let q = n / unit;
    let r = n % unit;
    if 2 * r < unit || (2 * r == unit && q % 2 == 0) {
        q
    } else {
        q + 1
    }
}

/// `n * 2^e` rounded to 24 significant bits.
pub open spec fn fit(n: nat, e: int) -> (nat, int) {
    (nearest(n, pow2(spare_bits(n))), e + spare_bits(n))
}

/// The single-precision product.
pub open spec fn product(a: (nat, int), b: (nat, int)) -> (nat, int) {
    fit(a.0 * b.0, a.1 + b.1)
}

/// The single-precision quotient: more bits than are kept, then a last bit that is
/// set where the division leaves a remainder.
pub open spec fn quotient(a: (nat, int), b: (nat, int)) -> (nat, int) {
    let wide = a.0 * 0x1000_0000_0000_0000;
    let sticky: nat = if wide % b.0 == 0 {
        0
    } else {
        1
    };
    fit(2 * (wide / b.0) + sticky, a.1 - b.1 - 61)
}

/// The single-precision sum of `a` and `b`, where the exponent of `a` is the larger.
pub open spec fn sum(a: (nat, int), b: (nat, int)) -> (nat, int) {
    if b.0 == 0 {
        a
    } else {
        fit(a.0 * pow2((a.1 - b.1) as nat) + b.0, b.1)
    }
}

/// The whole part of `a`.
pub open spec fn whole(a: (nat, int)) -> nat {
    if a.1 >= 0 {
        a.0 * pow2(a.1 as nat)
    } else {
        a.0 / pow2((-a.1) as nat)
    }
}

/// The least whole number that is not below `a`.
pub open spec fn ceiling(a: (nat, int)) -> nat {
    if a.1 >= 0 {
        a.0 * pow2(a.1 as nat)
    } else {
        let unit = pow2((-a.1) as nat);
        if a.0 % unit == 0 {
            a.0 / unit
        } else {
            a.0 / unit + 1
        }
    }
}

/// `n`, or the largest index of the machine where `n` is beyond it.
pub open spec fn capped(n: nat) -> nat {
    if n > usize::MAX {
        usize::MAX as nat
    } else {
        n
    }
}

proof fn lemma_spare_bits(n: nat)
    ensures
        n / pow2(spare_bits(n)) < MANT_LIMIT,
        spare_bits(n) > 0 ==> n / pow2(spare_bits(n)) >= MANT_LIMIT / 2,
    decreases n,
{
    if n < MANT_LIMIT {
        lemma2_to64();
        assert(n / 1 == n);
    } else {
        let s = spare_bits(n / 2);
        lemma_spare_bits(n / 2);
        lemma_pow2_unfold(s + 1);
        lemma_pow2_pos(s);
        assert((n / 2) / pow2(s) == n / (2 * pow2(s))) by {
            vstd::arithmetic::div_mod::lemma_div_denominator(n as int, 2, pow2(s) as int);
        }
        if s == 0 {
            lemma2_to64();
            assert((n / 2) / 1 == n / 2);
        }
    }
}

/// What is not zero does not round to zero.
pub proof fn lemma_fit_positive(n: nat, e: int)
    requires
        n > 0,
    ensures
        fit(n, e).0 > 0,
{
    lemma_spare_bits(n);
    if n < MANT_LIMIT {
        lemma2_to64();
        assert(n / 1 == n);
        assert(n % 1 == 0);
    }
}

proof fn lemma_spare_bits_bound(n: nat, k: nat)
    requires
        n < MANT_LIMIT * pow2(k),
    ensures
        spare_bits(n) <= k,
    decreases k,
{
    if n >= MANT_LIMIT {
        if k == 0 {
            lemma2_to64();
        } else {
            lemma_pow2_unfold(k);
            lemma_spare_bits_bound(n / 2, (k - 1) as nat);
        }
    }
}

/// `n * 2^e` rounded to 24 significant bits.
pub fn round_to_single(n: u128, e: i32) -> (r: Scaled)
    requires
        -900 <= e <= 800,
    ensures
        r.pair() == fit(n as nat, e as int),
        r.mant <= MANT_LIMIT,
        e <= r.exp <= e + 104,
        r.wf(),
{
    let mut unit: u128 = 1;
    let mut bits: i32 = 0;
    let mut left: u128 = n;
    proof {
        lemma2_to64();
        assert(n / 1 == n);
    }
    while left >= 0x100_0000
        invariant
            left == n as nat / pow2(bits as nat),
            unit == pow2(bits as nat),
            0 <= bits <= 104,
            bits + spare_bits(left as nat) == spare_bits(n as nat),
            left as nat * unit as nat <= n,
        decreases left,
    {
        proof {
            let k = bits as nat;
            lemma_pow2_unfold(k + 1);
            lemma_pow2_pos(k);
            vstd::arithmetic::div_mod::lemma_div_denominator(n as int, pow2(k) as int, 2);
            assert(left / 2 == n as nat / pow2(k + 1)) by {
                assert(pow2(k) * 2 == pow2(k + 1));
            }
            assert(left as int * unit as int <= n);
            assert((left as int / 2) * (2 * unit as int) <= left as int * unit as int)
                by (nonlinear_arith)
                requires
                    left >= 0,
                    unit >= 0,
            ;
            assert(0x100_0000 * (unit as int) <= left as int * unit as int) by (nonlinear_arith)
                requires
                    left >= 0x100_0000,
                    unit >= 0,
            ;
            assert(pow2(104) == 0x100_0000_0000_0000_0000_0000_0000) by {
                lemma_pow2_adds(64, 40);
                lemma2_to64();
                lemma2_to64_rest();
            }
            if bits == 104 {
                assert(false);
            }
        }
        left = left / 2;
        unit = unit * 2;
        bits = bits + 1;
    }
    proof {
        lemma_pow2_pos(bits as nat);
    }
    let q: u128 = n / unit;
    let rest: u128 = n % unit;
    let down: bool = rest < unit - rest || (rest == unit - rest && q % 2 == 0);
    proof {
        lemma_spare_bits(n as nat);
    }
    let mant: u64 = if down {
        q as u64
    } else {
        q as u64 + 1
    };
    Scaled { mant, exp: e + bits }
}

proof fn lemma_spare_bits_at_least(n: nat, k: nat)
    requires
        k > 0,
        2 * n >= MANT_LIMIT * pow2(k),
    ensures
        spare_bits(n) >= k,
    decreases k,
{
    lemma_pow2_unfold(k);
    lemma_pow2_pos((k - 1) as nat);
    if k > 1 {
        lemma_pow2_unfold((k - 1) as nat);
        lemma_spare_bits_at_least(n / 2, (k - 1) as nat);
    }
}

proof fn lemma_pow2_monotone(a: nat, b: nat)
    requires
        a <= b,
    ensures
        pow2(a) <= pow2(b),
{
    if a < b {
        lemma_pow2_strictly_increases(a, b);
    }
}

/// Two to the power `k`.
fn power_of_two(k: u32) -> (r: u128)
    requires
        k <= 100,
    ensures
        r == pow2(k as nat),
        r <= 0x10_0000_0000_0000_0000_0000_0000,
{
    let mut r: u128 = 1;
    let mut i: u32 = 0;
    proof {
        lemma2_to64();
        lemma2_to64_rest();
        lemma_pow2_adds(64, 36);
    }
    while i < k
        invariant
            i <= k <= 100,
            r == pow2(i as nat),
            pow2(100) == 0x10_0000_0000_0000_0000_0000_0000,
        decreases k - i,
    {
        proof {
            lemma_pow2_unfold((i + 1) as nat);
            lemma_pow2_monotone((i + 1) as nat, 100);
        }
        r = r * 2;
        i = i + 1;
    }
    proof {
        lemma_pow2_monotone(k as nat, 100);
    }
    r
}

/// The single-precision product.
pub fn times(a: Scaled, b: Scaled) -> (r: Scaled)
    requires
        a.wf(),
        b.wf(),
        -900 <= a.exp + b.exp <= 800,
    ensures
        r.pair() == product(a.pair(), b.pair()),
        a.exp + b.exp <= r.exp <= a.exp + b.exp + 104,
        r.wf(),
{
    assert(a.mant * b.mant <= 0x100_0000 * 0x100_0000) by (nonlinear_arith)
        requires
            a.mant <= 0x100_0000,
            b.mant <= 0x100_0000,
    ;
    round_to_single(a.mant as u128 * b.mant as u128, a.exp + b.exp)
}

/// The single-precision quotient.
pub fn over(a: Scaled, b: Scaled) -> (r: Scaled)
    requires
        a.wf(),
        b.wf(),
        b.mant > 0,
        -800 <= a.exp - b.exp <= 800,
    ensures
        r.pair() == quotient(a.pair(), b.pair()),
        a.exp - b.exp - 61 <= r.exp <= a.exp - b.exp + 43,
        r.wf(),
{
    let wide: u128 = a.mant as u128 * 0x1000_0000_0000_0000;
    let q: u128 = wide / (b.mant as u128);
    let sticky: u128 = if wide % (b.mant as u128) == 0 {
        0
    } else {
        1
    };
    assert(q <= wide) by (nonlinear_arith)
        requires
            q == wide / (b.mant as u128),
            b.mant > 0,
    ;
    round_to_single(2 * q + sticky, a.exp - b.exp - 61)
}

/// The single-precision sum.
pub fn plus(a: Scaled, b: Scaled) -> (r: Scaled)
    requires
        a.wf(),
        b.wf(),
        -800 <= b.exp <= 600,
        b.mant > 0 ==> 0 <= a.exp - b.exp <= 100,
    ensures
        r.pair() == sum(a.pair(), b.pair()),
        b.mant == 0 ==> r == a,
        b.mant > 0 ==> b.exp <= r.exp <= b.exp + 104,
        r.wf(),
{
    if b.mant == 0 {
        return a;
    }
    let unit: u128 = power_of_two((a.exp - b.exp) as u32);
    assert(a.mant * unit <= 0x100_0000 * 0x10_0000_0000_0000_0000_0000_0000) by (nonlinear_arith)
        requires
            a.mant <= 0x100_0000,
            unit <= 0x10_0000_0000_0000_0000_0000_0000,
    ;
    round_to_single(a.mant as u128 * unit + b.mant as u128, b.exp)
}

/// `a.mant * 2^a.exp`, cut to the machine's indices, for an exponent that is not
/// negative.
fn scaled_up(a: Scaled) -> (r: usize)
    requires
        a.wf(),
        a.exp >= 0,
    ensures
        r == capped(a.mant as nat * pow2(a.exp as nat)),
{
    let cap: u128 = usize::MAX as u128;
    let mut n: u128 = a.mant as u128;
    let mut k: i32 = a.exp;
    while k > 0 && n <= cap
        invariant
            0 <= k <= a.exp,
            n <= 2 * cap,
            cap == usize::MAX,
            n as nat * pow2(k as nat) == a.mant as nat * pow2(a.exp as nat),
        decreases k,
    {
        proof {
            lemma_pow2_unfold(k as nat);
            let p = pow2((k - 1) as nat) as int;
            assert((n as int) * (2 * p) == (2 * n as int) * p) by (nonlinear_arith);
        }
        n = n * 2;
        k = k - 1;
    }
    proof {
        lemma_pow2_pos(k as nat);
        let p = pow2(k as nat) as int;
        assert(n as int <= n as int * p) by (nonlinear_arith)
            requires
                p >= 1,
                n >= 0,
        ;
        if k == 0 {
            lemma2_to64();
        }
    }
    if n > cap {
        usize::MAX
    } else {
        n as usize
    }
}

proof fn lemma_small_over_large(n: nat, unit: nat)
    requires
        n < unit,
    ensures
        n / unit == 0,
        n % unit == n,
{
    vstd::arithmetic::div_mod::lemma_small_mod(n, unit);
    vstd::arithmetic::div_mod::lemma_basic_div(n as int, unit as int);
}

/// The whole part of `a`, cut to the machine's indices.
pub fn whole_part(a: Scaled) -> (r: usize)
    requires
        a.wf(),
    ensures
        r == capped(whole(a.pair())),
{
    if a.exp >= 0 {
        return scaled_up(a);
    }
    let down: i32 = -a.exp;
    if down >= 30 {
        proof {
            lemma_pow2_monotone(30, down as nat);
            lemma2_to64();
            lemma_small_over_large(a.mant as nat, pow2(down as nat));
        }
        return 0;
    }
    let unit: u128 = power_of_two(down as u32);
    proof {
        lemma_pow2_pos(down as nat);
        assert(a.mant as nat / unit as nat <= a.mant) by (nonlinear_arith)
            requires
                unit >= 1,
        ;
    }
    (a.mant as u128 / unit) as usize
}

/// The least whole number not below `a`, cut to the machine's indices.
pub fn rounded_up(a: Scaled) -> (r: usize)
    requires
        a.wf(),
    ensures
        r == capped(ceiling(a.pair())),
{
    if a.exp >= 0 {
        return scaled_up(a);
    }
    let down: i32 = -a.exp;
    if down >= 30 {
        proof {
            lemma_pow2_monotone(30, down as nat);
            lemma2_to64();
            lemma_small_over_large(a.mant as nat, pow2(down as nat));
        }
        return if a.mant == 0 {
            0
        } else {
            1
        };
    }
    let unit: u128 = power_of_two(down as u32);
    proof {
        lemma_pow2_pos(down as nat);
        assert(a.mant as nat / unit as nat <= a.mant) by (nonlinear_arith)
            requires
                unit >= 1,
        ;
    }
    let q: usize = (a.mant as u128 / unit) as usize;
    if a.mant as u128 % unit == 0 {
        q
    } else {
        q + 1
    }
}

/// Whether `a` is below `b`.
pub open spec fn less(a: (nat, int), b: (nat, int)) -> bool {
    if a.1 >= b.1 {
        a.0 * pow2((a.1 - b.1) as nat) < b.0
    } else {
        a.0 < b.0 * pow2((b.1 - a.1) as nat)
    }
}

/// Whether `a` is below `b`.
pub fn below(a: Scaled, b: Scaled) -> (r: bool)
    requires
        a.wf(),
        b.wf(),
    ensures
        r == less(a.pair(), b.pair()),
{
    if a.exp >= b.exp {
        let up: i32 = a.exp - b.exp;
        if up >= 30 {
            proof {
                lemma_pow2_monotone(30, up as nat);
                lemma2_to64();
                let p = pow2(up as nat);
                assert(a.mant > 0 ==> a.mant * p >= p) by (nonlinear_arith)
                    requires
                        p > 0,
                ;
                assert(a.mant == 0 ==> a.mant * p == 0) by (nonlinear_arith);
            }
            return a.mant == 0 && b.mant > 0;
        }
        let unit: u128 = power_of_two(up as u32);
        assert(a.mant * unit <= 0x100_0000 * 0x10_0000_0000_0000_0000_0000_0000)
            by (nonlinear_arith)
            requires
                a.mant <= 0x100_0000,
                unit <= 0x10_0000_0000_0000_0000_0000_0000,
        ;
        a.mant as u128 * unit < b.mant as u128
    } else {
        let up: i32 = b.exp - a.exp;
        if up >= 30 {
            proof {
                lemma_pow2_monotone(30, up as nat);
                lemma2_to64();
                let p = pow2(up as nat);
                assert(b.mant > 0 ==> b.mant * p >= p) by (nonlinear_arith)
                    requires
                        p > 0,
                ;
                assert(b.mant == 0 ==> b.mant * p == 0) by (nonlinear_arith);
            }
            return b.mant > 0;
        }
        let unit: u128 = power_of_two(up as u32);
        assert(b.mant * unit <= 0x100_0000 * 0x10_0000_0000_0000_0000_0000_0000)
            by (nonlinear_arith)
            requires
                b.mant <= 0x100_0000,
                unit <= 0x10_0000_0000_0000_0000_0000_0000,
        ;
        (a.mant as u128) < b.mant as u128 * unit
    }
}

// --- Seconds ---

/// Nanoseconds in a second.
pub const NANOS: u128 = 1_000_000_000;

/// One more than the largest length of time, in nanoseconds: seconds fill 64 bits.
pub const SPAN_LIMIT: u128 = 18_446_744_073_709_551_616_000_000_000;

/// A length of time in nanoseconds as single-precision seconds: the whole seconds
/// and the fraction of a second, each rounded, then added.
pub open spec fn span_seconds(nanos: nat) -> (nat, int) {
    sum(
        fit(nanos / NANOS as nat, 0),
        quotient(fit(nanos % NANOS as nat, 0), fit(NANOS as nat, 0)),
    )
}

/// Single-precision seconds `mant * 2^exp` in nanoseconds, to the nearest, the even
/// one at a tie.
pub open spec fn seconds_span(secs: (nat, int)) -> nat {
    if secs.1 >= 0 {
        secs.0 * NANOS as nat * pow2(secs.1 as nat)
    } else {
        nearest(secs.0 * NANOS as nat, pow2((-secs.1) as nat))
    }
}

/// How many interleaved samples `secs` seconds hold at `rate` frames per second of
/// `channels` samples: the product in single precision, cut to a whole number.
pub open spec fn sample_count(secs: (nat, int), rate: nat, channels: nat) -> nat {
    capped(whole(product(product(secs, fit(rate, 0)), fit(channels, 0))))
}

/// How many frames `secs` seconds hold at `rate` frames per second.
pub open spec fn frame_count(secs: (nat, int), rate: nat) -> nat {
    capped(whole(product(secs, fit(rate, 0))))
}

/// A length of time in nanoseconds as single-precision seconds.
pub fn seconds_of_span(nanos: u128) -> (r: Scaled)
    requires
        nanos < SPAN_LIMIT,
    ensures
        r.pair() == span_seconds(nanos as nat),
        -67 <= r.exp <= 200,
        r.wf(),
{
    let whole_secs: u128 = nanos / NANOS;
    let rest: u128 = nanos % NANOS;
    let s: Scaled = round_to_single(whole_secs, 0);
    let n: Scaled = round_to_single(rest, 0);
    let one: Scaled = round_to_single(NANOS, 0);
    proof {
        lemma2_to64();
        lemma2_to64_rest();
        lemma_spare_bits_bound(whole_secs as nat, 40);
        lemma_spare_bits_bound(rest as nat, 6);
        lemma_spare_bits_bound(NANOS as nat, 6);
        lemma_spare_bits(NANOS as nat);
        lemma_spare_bits_at_least(NANOS as nat, 1);
    }
    let f: Scaled = over(n, one);
    proof {
        if f.mant > 0 {
            let wide = n.mant as nat * 0x1000_0000_0000_0000;
            if n.mant == 0 {
                lemma_small_over_large(0, one.mant as nat);
                assert(spare_bits(0) == 0);
                lemma_small_over_large(0, 1);
                assert(false);
            }
            assert(wide / one.mant as nat >= 0x8_0000_0000) by (nonlinear_arith)
                requires
                    wide >= 0x1000_0000_0000_0000,
                    0 < one.mant <= 0x100_0000,
            ;
            let t = 2 * (wide / one.mant as nat) + (if wide % one.mant as nat == 0 {
                0nat
            } else {
                1nat
            });
            assert(wide / one.mant as nat <= 0x2000_0000_0000_0000) by (nonlinear_arith)
                requires
                    wide <= 0x100_0000 * 0x1000_0000_0000_0000,
                    one.mant >= 0x80_0000,
            ;
            lemma_spare_bits_at_least(t, 12);
            lemma_spare_bits_bound(t, 39);
            assert(f.pair() == fit(t, n.exp - one.exp - 61));
        }
    }
    plus(s, f)
}

impl Single {
    /// A value that is finite and not negative as a whole number times a power of two.
    pub fn scaled(self) -> (r: Scaled)
        requires
            self.finite(),
            !self.negative(),
        ensures
            r.pair() == (self.mant(), self.exp()),
            -149 <= r.exp <= 104,
            r.wf(),
    {
        let field: u32 = self.bits / HIDDEN_BIT;
        let fraction: u32 = self.bits % HIDDEN_BIT;
        if field == 0 {
            Scaled { mant: fraction as u64, exp: -149 }
        } else {
            Scaled { mant: fraction as u64 + HIDDEN_BIT as u64, exp: field as i32 - 150 }
        }
    }

    /// Whether the value can be a length of time in seconds: not negative, finite,
    /// and of fewer whole seconds than 64 bits count.
    pub open spec fn is_span(self) -> bool {
        self.finite() && !self.negative() && self.exp() <= 40
    }

    /// How many interleaved samples the value, taken as seconds, holds. Nothing for
    /// what is negative or not a number.
    pub open spec fn samples(self, rate: nat, channels: nat) -> nat {
        if self.nan() || self.negative() {
            0
        } else if !self.finite() {
            if rate == 0 || channels == 0 {
                0
            } else {
                usize::MAX as nat
            }
        } else {
            sample_count((self.mant(), self.exp()), rate, channels)
        }
    }

    /// How many interleaved samples the value, taken as seconds, holds.
    pub fn sample_count(self, rate: u32, channels: u16) -> (r: usize)
        ensures
            r == self.samples(rate as nat, channels as nat),
    {
        if self.is_nan() || self.is_negative() {
            return 0;
        }
        if !self.is_finite() {
            return if rate == 0 || channels == 0 {
                0
            } else {
                usize::MAX
            };
        }
        samples_in(self.scaled(), rate, channels)
    }

    /// The value, taken as seconds, in nanoseconds.
    pub fn span(self) -> (r: u128)
        requires
            self.is_span(),
        ensures
            r == seconds_span((self.mant(), self.exp())),
            r < SPAN_LIMIT,
    {
        let a: Scaled = self.scaled();
        let n: u128 = a.mant as u128 * NANOS;
        if a.exp >= 0 {
            let unit: u128 = power_of_two(a.exp as u32);
            proof {
                lemma_pow2_monotone(a.exp as nat, 40);
                lemma2_to64_rest();
                assert(n * unit <= 0xff_ffff * 1_000_000_000 * 0x100_0000_0000)
                    by (nonlinear_arith)
                    requires
                        n <= 0xff_ffff * 1_000_000_000,
                        unit <= 0x100_0000_0000,
                ;
            }
            return n * unit;
        }
        let down: i32 = -a.exp;
        if down >= 64 {
            proof {
                lemma_pow2_monotone(64, down as nat);
                lemma2_to64();
                lemma_small_over_large(n as nat, pow2(down as nat));
            }
            return 0;
        }
        let unit: u128 = power_of_two(down as u32);
        proof {
            lemma_pow2_pos(down as nat);
        }
        let q: u128 = n / unit;
        let rest: u128 = n % unit;
        if rest < unit - rest || (rest == unit - rest && q % 2 == 0) {
            q
        } else {
            assert(q <= n) by (nonlinear_arith)
                requires
                    q == n / unit,
                    unit >= 1,
            ;
            q + 1
        }
    }
}

/// How many frames `secs` seconds hold at `rate` frames per second.
pub fn frames_in(secs: Scaled, rate: u32) -> (r: usize)
    requires
        secs.wf(),
        -200 <= secs.exp <= 200,
    ensures
        r == frame_count(secs.pair(), rate as nat),
{
    whole_part(times(secs, round_to_single(rate as u128, 0)))
}

/// How many interleaved samples `secs` seconds hold at `rate` frames per second of
/// `channels` samples.
pub fn samples_in(secs: Scaled, rate: u32, channels: u16) -> (r: usize)
    requires
        secs.wf(),
        -200 <= secs.exp <= 200,
    ensures
        r == sample_count(secs.pair(), rate as nat, channels as nat),
{
    let frames: Scaled = times(secs, round_to_single(rate as u128, 0));
    whole_part(times(frames, round_to_single(channels as u128, 0)))
}

// --- How near the counts are ---

/// `a` in units of `2^-k`.
pub open spec fn units(a: (nat, int), k: nat) -> nat {
    a.0 * pow2((a.1 + k) as nat)
}

/// Whether `x` differs from `y` by at most `n` parts of `2^24`.
pub open spec fn near(x: nat, y: nat, n: nat) -> bool {
    &&& x * MANT_LIMIT <= y * (MANT_LIMIT + n)
    &&& y * (MANT_LIMIT - n) <= x * MANT_LIMIT
}

proof fn lemma_near_scaled(x: nat, y: nat, n: nat, c: nat)
    requires
        near(x, y, n),
    ensures
        near(x * c, y * c, n),
{
    let l = MANT_LIMIT as int;
    assert((x * c) * l <= (y * c) * (l + n)) by (nonlinear_arith)
        requires
            x * l <= y * (l + n),
            c >= 0,
    ;
    assert((y * c) * (l - n) <= (x * c) * l) by (nonlinear_arith)
        requires
            y * (l - n) <= x * l,
            c >= 0,
    ;
}

/// What is near one that is near is near, where neither is off by more than a thousand
/// parts.
proof fn lemma_near_chain(x: nat, y: nat, z: nat, m: nat, n: nat)
    requires
        near(x, y, m),
        near(y, z, n),
        m <= 1000,
        n <= 1000,
    ensures
        near(x, z, m + n + 1),
{
    let l = MANT_LIMIT as int;
    assert((l + m) * (l + n) <= l * (l + m + n + 1)) by (nonlinear_arith)
        requires
            0 <= m <= 1000,
            0 <= n <= 1000,
            l == 0x100_0000,
    ;
    assert((l - m) * (l - n) >= l * (l - m - n - 1)) by (nonlinear_arith)
        requires
            0 <= m <= 1000,
            0 <= n <= 1000,
            l == 0x100_0000,
    ;
    assert(x * l * l <= z * ((l + m) * (l + n))) by (nonlinear_arith)
        requires
            x * l <= y * (l + m),
            y * l <= z * (l + n),
            l > 0,
            m >= 0,
    ;
    assert(x * l <= z * (l + m + n + 1)) by (nonlinear_arith)
        requires
            x * l * l <= z * ((l + m) * (l + n)),
            (l + m) * (l + n) <= l * (l + m + n + 1),
            l > 0,
            z >= 0,
    ;
    assert(z * ((l - m) * (l - n)) <= x * l * l) by (nonlinear_arith)
        requires
            y * (l - m) <= x * l,
            z * (l - n) <= y * l,
            l > m,
            m >= 0,
    ;
    assert(z * (l - m - n - 1) <= x * l) by (nonlinear_arith)
        requires
            z * ((l - m) * (l - n)) <= x * l * l,
            (l - m) * (l - n) >= l * (l - m - n - 1),
            l > 0,
            z >= 0,
    ;
}

/// Rounding to 24 bits moves a value by at most one part.
proof fn lemma_fit_near(n: nat, e: int, k: nat)
    requires
        e + k >= 0,
    ensures
        near(units(fit(n, e), k), n * pow2((e + k) as nat), 1),
{
    let s = spare_bits(n);
    let unit = pow2(s);
    let m = nearest(n, unit);
    let l = MANT_LIMIT as int;
    lemma_pow2_pos(s);
    vstd::arithmetic::div_mod::lemma_fundamental_div_mod(n as int, unit as int);
    vstd::arithmetic::div_mod::lemma_mod_bound(n as int, unit as int);
    lemma_spare_bits(n);
    let q = n / unit;
    let r = n % unit;
    assert(near(m * unit, n, 1)) by {
        if s == 0 {
            lemma2_to64();
            assert(n / 1 == n && n % 1 == 0);
            assert(m * unit == n);
        } else {
            assert(m == q ==> m * unit == unit * q) by (nonlinear_arith);
            assert(m == q + 1 ==> m * unit == unit * q + unit) by (nonlinear_arith);
            assert(2 * (m * unit) <= 2 * n + unit && 2 * n <= 2 * (m * unit) + unit);
            assert(unit * 0x80_0000 <= n) by (nonlinear_arith)
                requires
                    n == unit * q + r,
                    q >= 0x80_0000,
                    unit > 0,
                    r >= 0,
            ;
        }
    }
    let c = pow2((e + k) as nat);
    lemma_near_scaled(m * unit, n, 1, c);
    lemma_pow2_adds(s, (e + k) as nat);
    assert(m * unit * c == m * (unit * c)) by (nonlinear_arith);
}

/// A product is near the product of what its factors are near.
proof fn lemma_product_near(
    a: (nat, int),
    b: (nat, int),
    x: nat,
    y: nat,
    i: nat,
    j: nat,
    m: nat,
    n: nat,
)
    requires
        a.1 + i >= 0,
        b.1 + j >= 0,
        near(units(a, i), x, m),
        near(units(b, j), y, n),
        m <= 400,
        n <= 400,
    ensures
        near(units(product(a, b), i + j), x * y, m + n + 3),
        product(a, b).1 + i + j >= 0,
{
    lemma_fit_near(a.0 * b.0, a.1 + b.1, i + j);
    lemma_pow2_adds((a.1 + i) as nat, (b.1 + j) as nat);
    let u = units(a, i);
    let v = units(b, j);
    let p = pow2((a.1 + i) as nat);
    let q = pow2((b.1 + j) as nat);
    assert((a.0 * b.0) * (p * q) == (a.0 * p) * (b.0 * q)) by (nonlinear_arith);
    assert((a.0 * b.0) * pow2((a.1 + b.1 + (i + j)) as nat) == u * v);
    lemma_near_scaled(u, x, m, v);
    lemma_near_scaled(v, y, n, x);
    assert(v * x == x * v && y * x == x * y) by (nonlinear_arith);
    lemma_near_chain(u * v, x * v, x * y, m, n);
    lemma_near_chain(units(product(a, b), i + j), u * v, x * y, 1, m + n + 1);
}

/// A quotient, times its divisor, is near what was divided.
proof fn lemma_quotient_near(a: (nat, int), b: (nat, int), i: nat, j: nat)
    requires
        0 < b.0 <= MANT_LIMIT,
        a.1 - b.1 - 61 + i >= 0,
        b.1 + j >= 0,
    ensures
        near(units(quotient(a, b), i) * units(b, j), units(a, i + j), 3),
        quotient(a, b).1 + i >= 0,
{
    let big: nat = 0x1000_0000_0000_0000;
    let l = MANT_LIMIT as int;
    let wide = a.0 * big;
    let q = wide / b.0;
    let r = wide % b.0;
    let sticky: nat = if r == 0 {
        0
    } else {
        1
    };
    let t = 2 * q + sticky;
    vstd::arithmetic::div_mod::lemma_fundamental_div_mod(wide as int, b.0 as int);
    vstd::arithmetic::div_mod::lemma_mod_bound(wide as int, b.0 as int);
    assert(b.0 * t == 2 * (b.0 * q) + b.0 * sticky) by (nonlinear_arith)
        requires
            t == 2 * q + sticky,
    ;
    assert(b.0 * sticky <= b.0) by (nonlinear_arith)
        requires
            sticky <= 1,
    ;
    assert(near(t * b.0, 2 * wide, 1)) by {
        assert(t * b.0 == b.0 * t) by (nonlinear_arith);
        if a.0 == 0 {
            assert(wide == 0) by (nonlinear_arith)
                requires
                    wide == a.0 * big,
                    a.0 == 0,
            ;
            lemma_small_over_large(0, b.0);
        } else {
            assert(wide >= big) by (nonlinear_arith)
                requires
                    wide == a.0 * big,
                    a.0 >= 1,
            ;
            assert(r == 0 ==> b.0 * sticky == 0);
        }
    }
    let e = a.1 - b.1 - 61;
    let c = pow2((e + i) as nat);
    let d = pow2((b.1 + j) as nat);
    lemma_fit_near(t, e, i);
    let f = units(quotient(a, b), i);
    let y = units(b, j);
    lemma_near_scaled(f, t * c, 1, y);
    lemma_near_scaled(t * b.0, 2 * wide, 1, c * d);
    assert((t * b.0) * (c * d) == (t * c) * (b.0 * d)) by (nonlinear_arith);
    lemma_pow2_adds((e + i) as nat, (b.1 + j) as nat);
    lemma_pow2_adds(61, (e + i + b.1 + j) as nat);
    assert(2 * big == pow2(61)) by {
        lemma2_to64();
        lemma2_to64_rest();
    }
    assert((2 * wide) * (c * d) == a.0 * ((2 * big) * (c * d))) by (nonlinear_arith)
        requires
            wide == a.0 * big,
    ;
    lemma_near_chain(f * y, (t * c) * y, units(a, i + j), 1, 1);
}

/// A length of time as seconds is near the nanoseconds that it was made of.
proof fn lemma_span_seconds_near(nanos: nat, k: nat)
    requires
        k >= 200,
    ensures
        near(units(span_seconds(nanos), k) * NANOS as nat, nanos * pow2(k), 7),
        span_seconds(nanos).1 + k >= 0,
{
    let unit = pow2(k);
    let billion = NANOS as nat;
    let secs = nanos / billion;
    let rest = nanos % billion;
    vstd::arithmetic::div_mod::lemma_fundamental_div_mod(nanos as int, billion as int);
    vstd::arithmetic::div_mod::lemma_mod_bound(nanos as int, billion as int);
    let s = fit(secs, 0);
    let n = fit(rest, 0);
    let one = fit(billion, 0);
    lemma2_to64();
    lemma2_to64_rest();
    assert(one == (15_625_000nat, 6int)) by {
        reveal_with_fuel(spare_bits, 8);
        assert(spare_bits(billion) == 6);
    }
    lemma_spare_bits_bound(rest, 6);
    lemma_fit_near(secs, 0, k);
    lemma_fit_near(rest, 0, k);
    let f = quotient(n, one);
    lemma_quotient_near(n, one, k, 0);
    assert(units(one, 0) == billion);
    let uf = units(f, k);
    let us = units(s, k);
    assert(near(uf * billion, rest * unit, 5)) by {
        lemma_near_chain(uf * billion, units(n, k), rest * unit, 3, 1);
    }
    lemma_near_scaled(us, secs * unit, 1, billion);
    let whole_part = secs * unit * billion;
    let l = MANT_LIMIT as int;
    assert(nanos * unit == whole_part + rest * unit) by (nonlinear_arith)
        requires
            nanos == billion * secs + rest,
            whole_part == secs * unit * billion,
    ;
    assert((us + uf) * billion == us * billion + uf * billion) by (nonlinear_arith);
    assert(near((us + uf) * billion, nanos * unit, 5)) by {
        let x = us * billion;
        let y = uf * billion;
        let v = rest * unit;
        assert((x + y) * l <= (whole_part + v) * (l + 5)) by (nonlinear_arith)
            requires
                x * l <= whole_part * (l + 1),
                y * l <= v * (l + 5),
                whole_part >= 0,
        ;
        assert((whole_part + v) * (l - 5) <= (x + y) * l) by (nonlinear_arith)
            requires
                whole_part * (l - 1) <= x * l,
                v * (l - 5) <= y * l,
                whole_part >= 0,
        ;
    }
    let r = span_seconds(nanos);
    if f.0 == 0 {
        assert(uf == 0) by (nonlinear_arith)
            requires
                uf == f.0 * pow2((f.1 + k) as nat),
                f.0 == 0,
        ;
        assert(units(r, k) == us + uf);
    } else {
        let wide = n.0 * 0x1000_0000_0000_0000;
        let t = 2 * (wide / one.0) + (if wide % one.0 == 0 {
            0nat
        } else {
            1nat
        });
        lemma_spare_bits(rest);
        assert(n.0 <= MANT_LIMIT);
        assert(wide / one.0 <= 0x2000_0000_0000_0000) by (nonlinear_arith)
            requires
                wide <= 0x100_0000 * 0x1000_0000_0000_0000,
                one.0 >= 0x80_0000,
        ;
        lemma_spare_bits_bound(t, 39);
        assert(f.1 <= 0);
        lemma_fit_near(s.0 * pow2((s.1 - f.1) as nat) + f.0, f.1, k);
        let up = pow2((s.1 - f.1) as nat);
        let c = pow2((f.1 + k) as nat);
        lemma_pow2_adds((s.1 - f.1) as nat, (f.1 + k) as nat);
        assert((s.0 * up + f.0) * c == s.0 * (up * c) + f.0 * c) by (nonlinear_arith);
        assert((s.0 * up + f.0) * c == us + uf);
        lemma_near_scaled(units(r, k), us + uf, 1, billion);
        lemma_near_chain(units(r, k) * billion, (us + uf) * billion, nanos * unit, 1, 5);
    }
}

/// The whole part of a value that is near `x / b`, and the whole number above it: off by
/// at most one in a million.
proof fn lemma_whole_of(a: (nat, int), x: nat, b: nat, k: nat, n: nat)
    requires
        a.1 + k >= 0,
        b > 0,
        near(units(a, k) * b, x * pow2(k), n),
        n <= 16,
    ensures
        whole(a) * b * 1_000_000 <= x * 1_000_001,
        x * 999_999 < (whole(a) + 1) * b * 1_000_000,
        x * 999_999 <= ceiling(a) * b * 1_000_000,
        ceiling(a) > 0 ==> (ceiling(a) - 1) * b * 1_000_000 < x * 1_000_001,
{
    lemma_whole_bounds(a, k);
    lemma_near_below(whole(a), units(a, k), x, b, k, n);
    lemma_near_above(whole(a) + 1, units(a, k), x, b, k, n);
    lemma_pow2_pos(k);
    let c = ceiling(a);
    let u = units(a, k);
    let unit = pow2(k);
    let l = MANT_LIMIT as int;
    assert(x * 999_999 <= c * b * 1_000_000) by {
        assert((x * (l - n)) * unit <= (c * b * l) * unit) by (nonlinear_arith)
            requires
                u <= c * unit,
                (x * unit) * (l - n) <= (u * b) * l,
                b > 0,
                l > 0,
        ;
        assert(x * (l - n) <= c * b * l) by (nonlinear_arith)
            requires
                (x * (l - n)) * unit <= (c * b * l) * unit,
                unit > 0,
        ;
        assert(x * 999_999 <= c * b * 1_000_000) by (nonlinear_arith)
            requires
                x * (l - n) <= c * b * l,
                l == 0x100_0000,
                n <= 16,
                x >= 0,
        ;
    }
    if c > 0 {
        let d = (c - 1) as nat;
        assert((d * b * l) * unit < (x * (l + n)) * unit) by (nonlinear_arith)
            requires
                d * unit < u,
                (u * b) * l <= (x * unit) * (l + n),
                b > 0,
                l > 0,
        ;
        assert(d * b * l < x * (l + n)) by (nonlinear_arith)
            requires
                (d * b * l) * unit < (x * (l + n)) * unit,
                unit > 0,
        ;
        assert(d * b * 1_000_000 < x * 1_000_001) by (nonlinear_arith)
            requires
                d * b * l < x * (l + n),
                l == 0x100_0000,
                n <= 16,
                x >= 0,
                d >= 0,
                b > 0,
        ;
    }
}

proof fn lemma_whole_bounds(a: (nat, int), k: nat)
    requires
        a.1 + k >= 0,
    ensures
        whole(a) * pow2(k) <= units(a, k) < (whole(a) + 1) * pow2(k),
        units(a, k) <= ceiling(a) * pow2(k),
        ceiling(a) > 0 ==> (ceiling(a) - 1) * pow2(k) < units(a, k),
{
    let w = whole(a);
    let u = units(a, k);
    let unit = pow2(k);
    lemma_pow2_pos(k);
    assert((w + 1) * unit == w * unit + unit) by (nonlinear_arith);
    if a.1 >= 0 {
        lemma_pow2_adds(a.1 as nat, k);
        let p = pow2(a.1 as nat);
        assert(a.0 * p * unit == a.0 * (p * unit)) by (nonlinear_arith);
        assert((w - 1) * unit == w * unit - unit) by (nonlinear_arith);
    } else {
        let d = pow2((-a.1) as nat);
        let c = pow2((a.1 + k) as nat);
        lemma_pow2_pos((-a.1) as nat);
        lemma_pow2_pos((a.1 + k) as nat);
        lemma_pow2_adds((-a.1) as nat, (a.1 + k) as nat);
        vstd::arithmetic::div_mod::lemma_fundamental_div_mod(a.0 as int, d as int);
        vstd::arithmetic::div_mod::lemma_mod_bound(a.0 as int, d as int);
        assert(d * w <= a.0 < d * w + d);
        assert(w * unit == (d * w) * c) by (nonlinear_arith)
            requires
                unit == d * c,
        ;
        assert((w + 1) * unit == (d * w + d) * c) by (nonlinear_arith)
            requires
                unit == d * c,
        ;
        assert((w - 1) * unit == (d * w - d) * c) by (nonlinear_arith)
            requires
                unit == d * c,
        ;
        assert((d * w) * c <= a.0 * c < (d * w + d) * c && (d * w - d) * c < (d * w) * c && (a.0
            > d * w ==> (d * w) * c < a.0 * c)) by (nonlinear_arith)
            requires
                d * w <= a.0 < d * w + d,
                d > 0,
                c > 0,
        ;
        assert((w + 1 - 1) * unit == w * unit);
    }
}

proof fn lemma_near_below(w: nat, u: nat, x: nat, b: nat, k: nat, n: nat)
    requires
        near(u * b, x * pow2(k), n),
        w * pow2(k) <= u,
        n <= 16,
    ensures
        w * b * 1_000_000 <= x * 1_000_001,
{
    let l = MANT_LIMIT as int;
    let unit = pow2(k);
    lemma_pow2_pos(k);
    assert((w * b * l) * unit <= (x * (l + n)) * unit) by (nonlinear_arith)
        requires
            w * unit <= u,
            (u * b) * l <= (x * unit) * (l + n),
            b >= 0,
            l > 0,
    ;
    assert(w * b * l <= x * (l + n)) by (nonlinear_arith)
        requires
            (w * b * l) * unit <= (x * (l + n)) * unit,
            unit > 0,
    ;
    assert(w * b * 1_000_000 <= x * 1_000_001) by (nonlinear_arith)
        requires
            w * b * l <= x * (l + n),
            l == 0x100_0000,
            n <= 16,
            x >= 0,
    ;
}

proof fn lemma_near_above(w: nat, u: nat, x: nat, b: nat, k: nat, n: nat)
    requires
        near(u * b, x * pow2(k), n),
        u < w * pow2(k),
        b > 0,
        n <= 16,
    ensures
        x * 999_999 < w * b * 1_000_000,
{
    let l = MANT_LIMIT as int;
    let unit = pow2(k);
    lemma_pow2_pos(k);
    assert((x * (l - n)) * unit < (w * b * l) * unit) by (nonlinear_arith)
        requires
            u < w * unit,
            (x * unit) * (l - n) <= (u * b) * l,
            b > 0,
            l > 0,
    ;
    assert(x * (l - n) < w * b * l) by (nonlinear_arith)
        requires
            (x * (l - n)) * unit < (w * b * l) * unit,
            unit > 0,
    ;
    assert(x * 999_999 < w * b * 1_000_000) by (nonlinear_arith)
        requires
            x * (l - n) < w * b * l,
            l == 0x100_0000,
            n <= 16,
            x >= 0,
            w >= 0,
            b > 0,
    ;
}

proof fn lemma_fit_whole_near(n: nat)
    ensures
        near(units(fit(n, 0), 0), n, 1),
        fit(n, 0).1 >= 0,
{
    lemma_fit_near(n, 0, 0);
    lemma2_to64();
}

/// A length of time holds as many frames as its nanoseconds, times the rate, make: cut to
/// a whole number, and off by at most one in a million.
pub proof fn law_frames_of_span(nanos: nat, rate: nat)
    ensures
        ({
            let n = frame_count(span_seconds(nanos), rate);
            &&& n * 1_000_000_000 * 1_000_000 <= nanos * rate * 1_000_001
            &&& n < usize::MAX ==> nanos * rate * 999_999 < (n + 1) * 1_000_000_000 * 1_000_000
        }),
{
    lemma_span_seconds_near(nanos, 200);
    lemma_fit_whole_near(rate);
    let secs = span_seconds(nanos);
    let a = product(secs, fit(rate, 0));
    let u = units(secs, 200);
    let b = NANOS as nat;
    let unit = pow2(200);
    lemma_product_near(secs, fit(rate, 0), u, rate, 200, 0, 0, 1);
    lemma_near_scaled(units(a, 200), u * rate, 4, b);
    lemma_near_scaled(u * b, nanos * unit, 7, rate);
    assert(u * rate * b == u * b * rate && nanos * unit * rate == nanos * rate * unit)
        by (nonlinear_arith);
    lemma_near_chain(units(a, 200) * b, u * rate * b, nanos * rate * unit, 4, 7);
    lemma_whole_of(a, nanos * rate, b, 200, 12);
    lemma_capped(whole(a), b, nanos * rate);
}

proof fn lemma_capped(w: nat, b: nat, x: nat)
    requires
        w * b * 1_000_000 <= x * 1_000_001,
    ensures
        capped(w) * b * 1_000_000 <= x * 1_000_001,
{
    assert(capped(w) * b <= w * b) by (nonlinear_arith)
        requires
            capped(w) <= w,
            b >= 0,
    ;
}

/// A length of time holds as many interleaved samples as its nanoseconds, times rate and
/// channels, make: cut to a whole number, and off by at most one in a million.
pub proof fn law_samples_of_span(nanos: nat, rate: nat, channels: nat)
    ensures
        ({
            let n = sample_count(span_seconds(nanos), rate, channels);
            &&& n * 1_000_000_000 * 1_000_000 <= nanos * (rate * channels) * 1_000_001
            &&& n < usize::MAX ==> nanos * (rate * channels) * 999_999 < (n + 1) * 1_000_000_000
                * 1_000_000
        }),
{
    lemma_span_seconds_near(nanos, 200);
    lemma_fit_whole_near(rate);
    lemma_fit_whole_near(channels);
    let secs = span_seconds(nanos);
    let frames = product(secs, fit(rate, 0));
    let a = product(frames, fit(channels, 0));
    let u = units(secs, 200);
    let b = NANOS as nat;
    let unit = pow2(200);
    lemma_product_near(secs, fit(rate, 0), u, rate, 200, 0, 0, 1);
    lemma_product_near(frames, fit(channels, 0), u * rate, channels, 200, 0, 4, 1);
    lemma_near_scaled(units(a, 200), u * rate * channels, 8, b);
    lemma_near_scaled(u * b, nanos * unit, 7, rate * channels);
    assert(u * rate * channels * b == u * b * (rate * channels)) by (nonlinear_arith);
    assert(nanos * unit * (rate * channels) == nanos * (rate * channels) * unit)
        by (nonlinear_arith);
    lemma_near_chain(
        units(a, 200) * b,
        u * rate * channels * b,
        nanos * (rate * channels) * unit,
        8,
        7,
    );
    lemma_whole_of(a, nanos * (rate * channels), b, 200, 16);
    lemma_capped(whole(a), b, nanos * (rate * channels));
}

/// Seconds `m * 2^-k` hold as many interleaved samples as they make times rate and
/// channels: cut to a whole number, and off by at most one in a million.
pub proof fn law_samples_of_seconds(secs: (nat, int), rate: nat, channels: nat, k: nat)
    requires
        secs.1 + k >= 0,
    ensures
        ({
            let n = sample_count(secs, rate, channels);
            let x = secs.0 * pow2((secs.1 + k) as nat);
            &&& n * pow2(k) * 1_000_000 <= x * (rate * channels) * 1_000_001
            &&& n < usize::MAX ==> x * (rate * channels) * 999_999 < (n + 1) * pow2(k) * 1_000_000
        }),
{
    lemma_fit_whole_near(rate);
    lemma_fit_whole_near(channels);
    let frames = product(secs, fit(rate, 0));
    let a = product(frames, fit(channels, 0));
    let u = units(secs, k);
    let unit = pow2(k);
    lemma_pow2_pos(k);
    lemma_product_near(secs, fit(rate, 0), u, rate, k, 0, 0, 1);
    lemma_product_near(frames, fit(channels, 0), u * rate, channels, k, 0, 4, 1);
    lemma_near_scaled(units(a, k), u * rate * channels, 8, unit);
    assert(u * rate * channels == u * (rate * channels)) by (nonlinear_arith);
    lemma_whole_of(a, u * (rate * channels), unit, k, 8);
    lemma_capped(whole(a), unit, u * (rate * channels));
}

/// Seconds `m * 2^-k` hold as many frames as they make times the rate: cut to a whole
/// number, and off by at most one in a million.
pub proof fn law_frames_of_seconds(secs: (nat, int), rate: nat, k: nat)
    requires
        secs.1 + k >= 0,
    ensures
        ({
            let n = frame_count(secs, rate);
            let x = secs.0 * pow2((secs.1 + k) as nat);
            &&& n * pow2(k) * 1_000_000 <= x * rate * 1_000_001
            &&& n < usize::MAX ==> x * rate * 999_999 < (n + 1) * pow2(k) * 1_000_000
        }),
{
    lemma_fit_whole_near(rate);
    let a = product(secs, fit(rate, 0));
    let u = units(secs, k);
    let unit = pow2(k);
    lemma_pow2_pos(k);
    lemma_product_near(secs, fit(rate, 0), u, rate, k, 0, 0, 1);
    lemma_near_scaled(units(a, k), u * rate, 4, unit);
    lemma_whole_of(a, u * rate, unit, k, 4);
    lemma_capped(whole(a), unit, u * rate);
}

/// How many steps of `m * 2^-k` seconds a length of time takes, cut or rounded up to a
/// whole number: off by at most one in a million.
pub proof fn law_steps_of_span(nanos: nat, step: (nat, int), k: nat)
    requires
        0 < step.0 <= MANT_LIMIT,
        -149 <= step.1 <= 100,
        step.1 + k >= 0,
    ensures
        ({
            let q = quotient(span_seconds(nanos), step);
            let x = step.0 * pow2((step.1 + k) as nat) * 1_000_000_000;
            let y = nanos * pow2(k);
            &&& whole(q) * x * 1_000_000 <= y * 1_000_001
            &&& y * 999_999 < (whole(q) + 1) * x * 1_000_000
            &&& y * 999_999 <= ceiling(q) * x * 1_000_000
            &&& ceiling(q) > 0 ==> (ceiling(q) - 1) * x * 1_000_000 < y * 1_000_001
        }),
{
    let secs = span_seconds(nanos);
    let q = quotient(secs, step);
    let i: nat = 400;
    let v = units(step, k);
    let b = NANOS as nat;
    let p = pow2(i);
    let c = pow2(k);
    lemma_span_seconds_near(nanos, 200);
    lemma_span_seconds_near(nanos, i + k);
    lemma_quotient_near(secs, step, i, k);
    lemma_pow2_adds(i, k);
    lemma_near_scaled(units(q, i) * v, units(secs, i + k), 3, b);
    lemma_near_chain(units(q, i) * v * b, units(secs, i + k) * b, nanos * pow2(i + k), 3, 7);
    assert(units(q, i) * v * b == units(q, i) * (v * b)) by (nonlinear_arith);
    assert(nanos * (p * c) == nanos * c * p) by (nonlinear_arith);
    lemma_pow2_pos((step.1 + k) as nat);
    assert(v * b > 0) by (nonlinear_arith)
        requires
            v == step.0 * pow2((step.1 + k) as nat),
            step.0 > 0,
            pow2((step.1 + k) as nat) > 0,
            b > 0,
    ;
    lemma_whole_of(q, nanos * c, v * b, i, 11);
}

/// Seconds `m * 2^-k` make as many nanoseconds as they should, to the nearest.
pub proof fn law_span_of_seconds(secs: (nat, int), k: nat)
    requires
        secs.1 + k >= 0,
    ensures
        ({
            let n = seconds_span(secs);
            let x = secs.0 * pow2((secs.1 + k) as nat) * 1_000_000_000;
            &&& 2 * (n * pow2(k)) <= 2 * x + pow2(k)
            &&& 2 * x <= 2 * (n * pow2(k)) + pow2(k)
        }),
{
    let n = seconds_span(secs);
    let b = NANOS as nat;
    let c = pow2(k);
    lemma_pow2_pos(k);
    if secs.1 >= 0 {
        let p = pow2(secs.1 as nat);
        lemma_pow2_adds(secs.1 as nat, k);
        assert(secs.0 * b * p * c == secs.0 * (p * c) * b) by (nonlinear_arith);
    } else {
        let d = pow2((-secs.1) as nat);
        let e = pow2((secs.1 + k) as nat);
        let m = secs.0 * b;
        lemma_pow2_pos((-secs.1) as nat);
        lemma_pow2_pos((secs.1 + k) as nat);
        lemma_pow2_adds((-secs.1) as nat, (secs.1 + k) as nat);
        vstd::arithmetic::div_mod::lemma_fundamental_div_mod(m as int, d as int);
        vstd::arithmetic::div_mod::lemma_mod_bound(m as int, d as int);
        let q = m / d;
        assert(n == q ==> n * d == d * q) by (nonlinear_arith);
        assert(n == q + 1 ==> n * d == d * q + d) by (nonlinear_arith);
        assert(2 * (n * d) <= 2 * m + d && 2 * m <= 2 * (n * d) + d);
        assert(secs.0 * e * b == m * e) by (nonlinear_arith)
            requires
                m == secs.0 * b,
        ;
        assert(n * c == n * d * e) by (nonlinear_arith)
            requires
                c == d * e,
        ;
        assert(2 * (n * d * e) <= 2 * (m * e) + d * e && 2 * (m * e) <= 2 * (n * d * e) + d * e)
            by (nonlinear_arith)
            requires
                2 * (n * d) <= 2 * m + d,
                2 * m <= 2 * (n * d) + d,
                e > 0,
        ;
    }
}

/// Values that are not negative compare as their bit patterns do; a negative one is below
/// each of them; and what is not a number compares with nothing.
pub proof fn law_order_of_values(a: Single, b: Single)
    ensures
        a.bits < 0x7f80_0001 && b.bits < 0x7f80_0001 ==> (a.ge(b) <==> a.bits >= b.bits) && (
        a.gt(b) <==> a.bits > b.bits),
        a.bits < 0x7f80_0001 && 0x8000_0000 < b.bits < 0xff80_0001 ==> a.gt(b) && !b.ge(a),
        0x7f80_0000 < a.bits < 0x8000_0000 ==> !a.ge(b) && !b.ge(a) && !a.gt(b) && !b.gt(a),
{
}

/// A quotient is compared with a value as the numbers that it was made of are, unless they
/// are nearer than one in a million.
pub proof fn law_quotient_compares(a: nat, b: nat, m: (nat, int), k: nat)
    requires
        0 < b <= u32::MAX,
        -149 <= m.1 <= 100,
        m.1 + k >= 0,
    ensures
        ({
            let x = m.0 * pow2((m.1 + k) as nat);
            let below = less(quotient(fit(a, 0), fit(b, 0)), m);
            &&& below ==> a * pow2(k) * 999_999 <= x * b * 1_000_000
            &&& !below ==> x * b * 1_000_000 <= a * pow2(k) * 1_000_001
        }),
{
    let n = fit(a, 0);
    let d = fit(b, 0);
    let q = quotient(n, d);
    let i: nat = 400 + k;
    lemma_fit_positive(b, 0);
    lemma_spare_bits(b);
    lemma2_to64();
    lemma_spare_bits_bound(b, 8);
    lemma_fit_near(a, 0, i);
    lemma_fit_whole_near(b);
    lemma_quotient_near(n, d, i, 0);
    let u = units(q, i);
    let v = units(d, 0);
    let p = pow2(i);
    lemma_near_chain(u * v, units(n, i), a * p, 3, 1);
    lemma_near_scaled(v, b, 1, u);
    assert(v * u == u * v && b * u == u * b) by (nonlinear_arith);
    assert(near(u * b, u * v, 2)) by {
        let l = MANT_LIMIT as int;
        assert((u * b) * l <= (u * v) * (l + 2)) by (nonlinear_arith)
            requires
                (u * b) * (l - 1) <= (u * v) * l,
                l == 0x100_0000,
                u * b >= 0,
                u * v >= 0,
        ;
        assert((u * v) * (l - 2) <= (u * b) * l) by (nonlinear_arith)
            requires
                (u * v) * l <= (u * b) * (l + 1),
                l == 0x100_0000,
                u * b >= 0,
                u * v >= 0,
        ;
    }
    lemma_near_chain(u * b, u * v, a * p, 2, 5);
    let y = units(m, i);
    lemma_less_in_units(q, m, i);
    lemma_pow2_adds((m.1 + k) as nat, 400);
    lemma_pow2_adds(k, 400);
    lemma_pow2_pos(400);
    let x = m.0 * pow2((m.1 + k) as nat);
    let c = pow2(k);
    let e = pow2(400);
    assert(y == x * e) by (nonlinear_arith)
        requires
            y == m.0 * (pow2((m.1 + k) as nat) * e),
            x == m.0 * pow2((m.1 + k) as nat),
    ;
    assert(a * p == a * c * e) by (nonlinear_arith)
        requires
            p == c * e,
    ;
    let l = MANT_LIMIT as int;
    if u < y {
        assert(u * b <= x * b * e) by (nonlinear_arith)
            requires
                u <= x * e,
                b >= 0,
        ;
        assert((a * c * e) * (l - 8) <= (x * b * e) * l) by (nonlinear_arith)
            requires
                (a * c * e) * (l - 8) <= (u * b) * l,
                u * b <= x * b * e,
                l > 0,
        ;
        assert((a * c) * (l - 8) <= (x * b) * l) by (nonlinear_arith)
            requires
                (a * c * e) * (l - 8) <= (x * b * e) * l,
                e > 0,
        ;
        assert(a * c * 999_999 <= x * b * 1_000_000) by (nonlinear_arith)
            requires
                (a * c) * (l - 8) <= (x * b) * l,
                l == 0x100_0000,
                a * c >= 0,
        ;
    } else {
        assert(u * b >= x * b * e) by (nonlinear_arith)
            requires
                u >= x * e,
                b >= 0,
        ;
        assert((x * b * e) * l <= (a * c * e) * (l + 8)) by (nonlinear_arith)
            requires
                (u * b) * l <= (a * c * e) * (l + 8),
                u * b >= x * b * e,
                l > 0,
        ;
        assert((x * b) * l <= (a * c) * (l + 8)) by (nonlinear_arith)
            requires
                (x * b * e) * l <= (a * c * e) * (l + 8),
                e > 0,
        ;
        assert(x * b * 1_000_000 <= a * c * 1_000_001) by (nonlinear_arith)
            requires
                (x * b) * l <= (a * c) * (l + 8),
                l == 0x100_0000,
                a * c >= 0,
        ;
    }
}

proof fn lemma_less_in_units(a: (nat, int), b: (nat, int), k: nat)
    requires
        a.1 + k >= 0,
        b.1 + k >= 0,
    ensures
        less(a, b) <==> units(a, k) < units(b, k),
{
    lemma_pow2_pos((a.1 + k) as nat);
    lemma_pow2_pos((b.1 + k) as nat);
    if a.1 >= b.1 {
        let d = pow2((a.1 - b.1) as nat);
        let c = pow2((b.1 + k) as nat);
        lemma_pow2_adds((a.1 - b.1) as nat, (b.1 + k) as nat);
        assert(a.0 * (d * c) == (a.0 * d) * c) by (nonlinear_arith);
        assert(a.0 * d < b.0 <==> (a.0 * d) * c < b.0 * c) by (nonlinear_arith)
            requires
                c > 0,
        ;
    } else {
        let d = pow2((b.1 - a.1) as nat);
        let c = pow2((a.1 + k) as nat);
        lemma_pow2_adds((b.1 - a.1) as nat, (a.1 + k) as nat);
        assert(b.0 * (d * c) == (b.0 * d) * c) by (nonlinear_arith);
        assert(a.0 < b.0 * d <==> a.0 * c < (b.0 * d) * c) by (nonlinear_arith)
            requires
                c > 0,
        ;
    }
}

/// Of two numbers the smaller is one of them and not above either, the larger one of them
/// and not below either; of a number and what is none, both are the number.
pub proof fn law_smaller_and_larger(a: Single, b: Single)
    ensures
        !a.nan() && !b.nan() ==> {
            &&& a.smaller(b) == a || a.smaller(b) == b
            &&& a.larger(b) == a || a.larger(b) == b
            &&& a.ge(a.smaller(b)) && b.ge(a.smaller(b))
            &&& a.larger(b).ge(a) && a.larger(b).ge(b)
        },
        a.nan() ==> a.smaller(b) == b && a.larger(b) == b,
        !a.nan() && b.nan() ==> a.smaller(b) == a && a.larger(b) == a,
{
}

/// The whole part of `m * 2^-k` is the largest whole number that is not above it.
pub proof fn law_whole_is_the_floor(a: (nat, int), k: nat)
    requires
        a.1 + k >= 0,
    ensures
        whole(a) * pow2(k) <= a.0 * pow2((a.1 + k) as nat) < (whole(a) + 1) * pow2(k),
{
    lemma_whole_bounds(a, k);
}

} // verus!
