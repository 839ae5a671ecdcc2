//! Exact decimal numbers.
//!
//! A [`Decimal`] holds an unbounded signed integer, written in bytes, and a
//! scale as plain values; the number it stands for is
//! `integer / 10^scale`. Contracts speak of that number, a `real`, through
//! the view `d@`. The arithmetic itself is done by the `bigdecimal` crate
//! behind the private functions at the end of this file, whose contracts
//! are believed, not proved.
use bigdecimal::num_bigint::BigInt;
use bigdecimal::BigDecimal;
use bigdecimal::RoundingMode;
use vstd::prelude::*;

verus! {

/// Largest scale of a decimal that enters the engine as a price or a quantity.
pub const INPUT_SCALE_LIMIT: i64 = 1_000_000;

/// Largest scale of any decimal the library computes with.
pub const MAX_SCALE: i64 = 4_000_000;

/// Ten to the power `n`.
pub open spec fn pow10(n: nat) -> real
    decreases n,
{
    if n == 0 {
        1real
    } else {
        10real * pow10((n - 1) as nat)
    }
}

/// The natural number that little-endian base 256 digits stand for.
pub open spec fn magnitude_value(bytes: Seq<u8>) -> nat
    decreases bytes.len(),
{
    if bytes.len() == 0 {
        0
    } else {
        bytes[0] as nat + 256 * magnitude_value(bytes.skip(1))
    }
}

/// 256 to the power `n`.
pub open spec fn pow256(n: nat) -> nat
    decreases n,
{
    if n == 0 {
        1
    } else {
        256 * pow256((n - 1) as nat)
    }
}

/// The integer that bytes in two's complement, least significant first,
/// stand for; no byte stands for zero.
pub open spec fn signed_value(bytes: Seq<u8>) -> int {
    if bytes.len() > 0 && bytes.last() >= 128 {
        magnitude_value(bytes) - pow256(bytes.len())
    } else {
        magnitude_value(bytes) as int
    }
}

/// The largest multiple of `10^-scale` that is not above `x`.
pub open spec fn floor_to_scale(x: real, scale: nat) -> real {
    (x * pow10(scale)).floor() as real / pow10(scale)
}

/// An exact decimal number: `digits / 10^scale`, the digits being a signed
/// integer in two's complement, least significant byte first.
#[derive(Debug, Clone)]
pub struct Decimal {
    pub digits: Vec<u8>,
    pub scale: i64,
}

impl View for Decimal {
    type V = real;

    open spec fn view(&self) -> real {
        self.mantissa() as real / pow10(self.scale as nat)
    }
}

impl Decimal {
    /// The signed integer of which the value is the `10^scale`-th part.
    pub open spec fn mantissa(&self) -> int {
        signed_value(self.digits@)
    }

    /// The scale is one the library can compute with.
    pub open spec fn representable(&self) -> bool {
        0 <= self.scale <= MAX_SCALE
    }

    /// The scale is at most `units` times the limit for inputs.
    pub open spec fn fits(&self, units: int) -> bool {
        0 <= self.scale <= units * INPUT_SCALE_LIMIT
    }

    /// Whether the scale is within the limit for inputs.
    pub fn is_input(&self) -> (r: bool)
        ensures
            r == self.fits(1),
    {
        0 <= self.scale && self.scale <= INPUT_SCALE_LIMIT
    }

    /// Whether the scale is at most `units` times the limit for inputs.
    pub fn is_within(&self, units: i64) -> (r: bool)
        requires
            0 <= units <= 4,
        ensures
            r == self.fits(units as int),
    {
        0 <= self.scale && self.scale <= units * INPUT_SCALE_LIMIT
    }

    /// Same digits and scale.
    pub open spec fn same(&self, other: &Decimal) -> bool {
        &&& self.digits@ == other.digits@
        &&& self.scale == other.scale
    }

    /// The number zero.
    pub fn zero() -> (r: Decimal)
        ensures
            r@ == 0real,
            r.scale == 0,
    {
        let r = Decimal { digits: Vec::new(), scale: 0 };
        assert(pow10(0) == 1real);
        r
    }

    /// The smallest positive decimal of the given scale, `10^-scale`.
    pub fn unit(scale: i64) -> (r: Decimal)
        requires
            0 <= scale,
        ensures
            r@ == 1real / pow10(scale as nat),
            r.scale == scale,
            r.mantissa() == 1,
    {
        let mut digits: Vec<u8> = Vec::new();
        digits.push(1u8);
        let r = Decimal { digits, scale };
        proof {
            let s = r.digits@;
            assert(s.skip(1).len() == 0);
            assert(magnitude_value(s) == s[0] as nat + 256 * magnitude_value(s.skip(1)));
        }
        r
    }

    /// The integer `v` as a decimal of scale 0.
    pub fn from_i64(v: i64) -> (r: Decimal)
        ensures
            r@ == v as real,
            r.scale == 0,
    {
        let r = bigdecimal_from_i64(v);
        proof {
            assert(pow10(0) == 1real);
        }
        r
    }

    /// An independent value with the same digits and scale.
    pub fn copy(&self) -> (r: Decimal)
        ensures
            r.same(self),
            r@ == self@,
    {
        let digits = self.digits.clone();
        assert(digits@ =~= self.digits@);
        Decimal { digits, scale: self.scale }
    }

    /// `self + other`, exactly.
    pub fn plus(&self, other: &Decimal) -> (r: Decimal)
        requires
            self.representable(),
            other.representable(),
        ensures
            r@ == self@ + other@,
            r.scale == self.scale || r.scale == other.scale,
    {
        bigdecimal_sum(self, other)
    }

    /// `self - other`, exactly.
    pub fn minus(&self, other: &Decimal) -> (r: Decimal)
        requires
            self.representable(),
            other.representable(),
        ensures
            r@ == self@ - other@,
            r.scale == self.scale || r.scale == other.scale,
    {
        bigdecimal_difference(self, other)
    }

    /// `self * other`, exactly.
    pub fn times(&self, other: &Decimal) -> (r: Decimal)
        requires
            self.representable(),
            other.representable(),
        ensures
            r@ == self@ * other@,
            0 <= r.scale <= self.scale + other.scale,
    {
        bigdecimal_product(self, other)
    }

    /// Whether `self < other`.
    pub fn less_than(&self, other: &Decimal) -> (r: bool)
        requires
            self.representable(),
            other.representable(),
        ensures
            r == (self@ < other@),
    {
        bigdecimal_order(self, other) < 0
    }

    /// Whether `self <= other`.
    pub fn at_most(&self, other: &Decimal) -> (r: bool)
        requires
            self.representable(),
            other.representable(),
        ensures
            r == (self@ <= other@),
    {
        bigdecimal_order(self, other) <= 0
    }

    /// Whether the two stand for the same number, whatever their scales.
    pub fn equals(&self, other: &Decimal) -> (r: bool)
        requires
            self.representable(),
            other.representable(),
        ensures
            r == (self@ == other@),
    {
        bigdecimal_order(self, other) == 0
    }

    /// Whether the number is zero.
    pub fn is_zero(&self) -> (r: bool)
        requires
            self.representable(),
        ensures
            r == (self@ == 0real),
    {
        let z = Decimal::zero();
        self.equals(&z)
    }

    /// Whether the number is below zero.
    pub fn is_negative(&self) -> (r: bool)
        requires
            self.representable(),
        ensures
            r == (self@ < 0real),
    {
        let z = Decimal::zero();
        self.less_than(&z)
    }

    /// Whether the number is above zero.
    pub fn is_positive(&self) -> (r: bool)
        requires
            self.representable(),
        ensures
            r == (self@ > 0real),
    {
        let z = Decimal::zero();
        z.less_than(self)
    }

    /// The quotient `self / divisor`, cut to `scale` decimal places: the
    /// largest multiple of `10^-scale` whose product with the divisor is
    /// not above `self`. It is never rounded up.
    ///
    /// The division of the outside crate may round, so its result is only
    /// a first guess: it is lowered and raised by steps of `10^-scale`
    /// until it is the quotient cut, which as a rule takes no step at all.
    pub fn floor_quotient(&self, divisor: &Decimal, scale: i64) -> (r: Decimal)
        requires
            self.fits(3),
            divisor.fits(1),
            self@ >= 0real,
            divisor@ > 0real,
            0 <= scale <= 2 * INPUT_SCALE_LIMIT,
        ensures
            r@ == floor_to_scale(self@ / divisor@, scale as nat),
            r.scale == scale,
    {
        let unit = Decimal::unit(scale);
        let mut q = bigdecimal_quotient_at_scale(self, divisor, scale);
        let ghost p = pow10(scale as nat);
        let ghost x = self@ / divisor@;
        proof {
            lemma_pow10_positive(scale as nat);
            lemma_quotient_bounds(self@, divisor@, x);
        }
        while self.less_than(&q.times(divisor))
            invariant
                q.scale == scale,
                unit.scale == scale,
                unit.mantissa() == 1,
                0 <= scale <= 2 * INPUT_SCALE_LIMIT,
                self.fits(3),
                divisor.fits(1),
                self@ >= 0real,
                divisor@ > 0real,
                p == pow10(scale as nat),
                p > 0real,
            decreases q.mantissa(),
        {
            let ghost before = q.mantissa();
            proof {
                lemma_scaled_sign(q.mantissa(), p, divisor@, self@);
            }
            q = q.minus(&unit);
            proof {
                lemma_scaled_difference(before, 1, q.mantissa(), p);
            }
        }
        loop
            invariant
                q.scale == scale,
                unit.scale == scale,
                unit.mantissa() == 1,
                0 <= scale <= 2 * INPUT_SCALE_LIMIT,
                self.fits(3),
                divisor.fits(1),
                self@ >= 0real,
                divisor@ > 0real,
                p == pow10(scale as nat),
                p > 0real,
                x == self@ / divisor@,
                q@ * divisor@ <= self@,
            ensures
                q.scale == scale,
                q@ * divisor@ <= self@,
                (q@ + unit@) * divisor@ > self@,
            decreases (x * p).floor() - q.mantissa(),
        {
            let next = q.plus(&unit);
            if !next.times(divisor).at_most(self) {
                break;
            }
            proof {
                lemma_scaled_difference(next.mantissa(), 1, q.mantissa(), p);
                lemma_quotient_bounds(self@, divisor@, x);
                lemma_scaled_floor(next.mantissa(), p, divisor@, self@, x);
            }
            q = next;
        }
        proof {
            lemma_quotient_bounds(self@, divisor@, x);
            lemma_floor_is(q.mantissa(), p, divisor@, self@, x);
        }
        q
    }

    /// The smaller of the two; `self` when they are equal.
    pub fn min(&self, other: &Decimal) -> (r: Decimal)
        requires
            self.representable(),
            other.representable(),
        ensures
            r@ == (if self@ <= other@ { self@ } else { other@ }),
            self@ <= other@ ==> r.same(self),
            !(self@ <= other@) ==> r.same(other),
    {
        if self.at_most(other) {
            self.copy()
        } else {
            other.copy()
        }
    }
}

/// Ten to any power is above zero.
pub proof fn lemma_pow10_positive(n: nat)
    ensures
        pow10(n) > 0real,
    decreases n,
{
    if n > 0 {
        lemma_pow10_positive((n - 1) as nat);
    }
}

/// A number cut to a scale is not above the number, and is not below zero
/// where the number is not.
pub proof fn lemma_floor_to_scale_bounds(x: real, scale: nat)
    ensures
        floor_to_scale(x, scale) <= x,
        x >= 0real ==> floor_to_scale(x, scale) >= 0real,
{
    lemma_pow10_positive(scale);
    let p = pow10(scale);
    let n = (x * p).floor();
    assert(n as real / p <= x) by (nonlinear_arith)
        requires
            p > 0real,
            n as real <= x * p,
    ;
    if x >= 0real {
        assert(x * p >= 0real) by (nonlinear_arith)
            requires
                p > 0real,
                x >= 0real,
        ;
        assert(n as real / p >= 0real) by (nonlinear_arith)
            requires
                p > 0real,
                n >= 0,
        ;
    }
}

/// Ten to any power is at least one.
pub proof fn lemma_pow10_at_least_one(n: nat)
    ensures
        pow10(n) >= 1real,
    decreases n,
{
    if n > 0 {
        lemma_pow10_at_least_one((n - 1) as nat);
    }
}

/// A number cut to a scale is less than one below the number.
pub proof fn lemma_floor_to_scale_is_close(x: real, scale: nat)
    ensures
        floor_to_scale(x, scale) > x - 1real,
{
    lemma_pow10_at_least_one(scale);
    let p = pow10(scale);
    let n = (x * p).floor();
    assert(n as real / p > x - 1real) by (nonlinear_arith)
        requires
            p >= 1real,
            n as real > x * p - 1real,
    ;
}

/// A quotient by a positive divisor, times the divisor, is the dividend.
proof fn lemma_quotient_bounds(a: real, b: real, x: real)
    requires
        b > 0real,
        x == a / b,
    ensures
        x * b == a,
{
    assert(a / b * b == a) by (nonlinear_arith)
        requires
            b > 0real,
    ;
}

/// Fractions over one positive denominator differ as their numerators do.
proof fn lemma_scaled_difference(m: int, one: int, n: int, p: real)
    requires
        p > 0real,
        n as real / p == m as real / p - one as real / p,
    ensures
        n == m - one,
{
    assert(n as real == m as real - one as real) by (nonlinear_arith)
        requires
            p > 0real,
            n as real / p == m as real / p - one as real / p,
    ;
}

/// A fraction whose product with a positive divisor is above a dividend
/// that is not negative has a positive numerator.
proof fn lemma_scaled_sign(m: int, p: real, b: real, a: real)
    requires
        p > 0real,
        b > 0real,
        a >= 0real,
        m as real / p * b > a,
    ensures
        m > 0,
{
    assert(m as real > 0real) by (nonlinear_arith)
        requires
            p > 0real,
            b > 0real,
            a >= 0real,
            m as real / p * b > a,
    ;
}

/// A fraction whose product with the divisor is not above the dividend has
/// a numerator that is not above the floor of the scaled quotient.
proof fn lemma_scaled_floor(m: int, p: real, b: real, a: real, x: real)
    requires
        p > 0real,
        b > 0real,
        x * b == a,
        m as real / p * b <= a,
    ensures
        m <= (x * p).floor(),
{
    assert(m as real <= x * p) by (nonlinear_arith)
        requires
            p > 0real,
            b > 0real,
            x * b == a,
            m as real / p * b <= a,
    ;
}

/// The fraction `m / p` is the quotient cut to the denominator `p` where
/// its product with the divisor is not above the dividend and that of the
/// next fraction is.
proof fn lemma_floor_is(m: int, p: real, b: real, a: real, x: real)
    requires
        p > 0real,
        b > 0real,
        x * b == a,
        m as real / p * b <= a,
        (m as real / p + 1 as real / p) * b > a,
    ensures
        (x * p).floor() == m,
{
    assert(m as real <= x * p < (m + 1) as real) by (nonlinear_arith)
        requires
            p > 0real,
            b > 0real,
            x * b == a,
            m as real / p * b <= a,
            (m as real / p + 1 as real / p) * b > a,
    ;
}

/// Calls `BigDecimal / BigDecimal`, then `with_scale_round` with
/// `RoundingMode::Down`. The quotient may be rounded, so nothing is
/// believed of its value: only that it comes at the scale asked for.
#[verifier::external_body]
fn bigdecimal_quotient_at_scale(a: &Decimal, b: &Decimal, scale: i64) -> (r: Decimal)
    requires
        a.representable(),
        b.representable(),
        b@ != 0real,
        0 <= scale <= MAX_SCALE,
    ensures
        r.scale == scale,
{
    let x = BigDecimal::new(BigInt::from_signed_bytes_le(&a.digits), a.scale);
    let y = BigDecimal::new(BigInt::from_signed_bytes_le(&b.digits), b.scale);
    let (digits, scale) = (x / y).with_scale_round(scale, RoundingMode::Down).into_bigint_and_exponent();
    Decimal { digits: digits.to_signed_bytes_le(), scale }
}

/// Calls `BigDecimal::from` on an `i64`. Believed: the result is the integer
/// itself, at scale 0.
#[verifier::external_body]
fn bigdecimal_from_i64(v: i64) -> (r: Decimal)
    ensures
        r.mantissa() == v,
        r.scale == 0,
{
    let (digits, scale) = BigDecimal::from(v).into_bigint_and_exponent();
    Decimal { digits: digits.to_signed_bytes_le(), scale }
}

/// Calls `BigDecimal + BigDecimal`. Believed: the sum is exact, and comes at
/// the scale of one of the two operands.
#[verifier::external_body]
fn bigdecimal_sum(a: &Decimal, b: &Decimal) -> (r: Decimal)
    requires
        a.representable(),
        b.representable(),
    ensures
        r@ == a@ + b@,
        r.scale == a.scale || r.scale == b.scale,
{
    let x = BigDecimal::new(BigInt::from_signed_bytes_le(&a.digits), a.scale);
    let y = BigDecimal::new(BigInt::from_signed_bytes_le(&b.digits), b.scale);
    let (digits, scale) = (x + y).into_bigint_and_exponent();
    Decimal { digits: digits.to_signed_bytes_le(), scale }
}

/// Calls `BigDecimal - BigDecimal`. Believed: the difference is exact, and
/// comes at the scale of one of the two operands.
#[verifier::external_body]
fn bigdecimal_difference(a: &Decimal, b: &Decimal) -> (r: Decimal)
    requires
        a.representable(),
        b.representable(),
    ensures
        r@ == a@ - b@,
        r.scale == a.scale || r.scale == b.scale,
{
    let x = BigDecimal::new(BigInt::from_signed_bytes_le(&a.digits), a.scale);
    let y = BigDecimal::new(BigInt::from_signed_bytes_le(&b.digits), b.scale);
    let (digits, scale) = (x - y).into_bigint_and_exponent();
    Decimal { digits: digits.to_signed_bytes_le(), scale }
}

/// Calls `BigDecimal * BigDecimal`. Believed: the product is exact, and its
/// scale is that of an operand or the sum of both.
#[verifier::external_body]
fn bigdecimal_product(a: &Decimal, b: &Decimal) -> (r: Decimal)
    requires
        a.representable(),
        b.representable(),
    ensures
        r@ == a@ * b@,
        r.scale == a.scale || r.scale == b.scale || r.scale == a.scale + b.scale,
{
    let x = BigDecimal::new(BigInt::from_signed_bytes_le(&a.digits), a.scale);
    let y = BigDecimal::new(BigInt::from_signed_bytes_le(&b.digits), b.scale);
    let (digits, scale) = (x * y).into_bigint_and_exponent();
    Decimal { digits: digits.to_signed_bytes_le(), scale }
}

/// Calls `Ord::cmp` on two `BigDecimal`s. Believed: the order is that of the
/// numbers, whatever their scales; the result is -1, 0 or 1.
#[verifier::external_body]
fn bigdecimal_order(a: &Decimal, b: &Decimal) -> (r: i8)
    requires
        a.representable(),
        b.representable(),
    ensures
        r == -1 || r == 0 || r == 1,
        (r == -1) == (a@ < b@),
        (r == 0) == (a@ == b@),
        (r == 1) == (a@ > b@),
{
    let x = BigDecimal::new(BigInt::from_signed_bytes_le(&a.digits), a.scale);
    let y = BigDecimal::new(BigInt::from_signed_bytes_le(&b.digits), b.scale);
    match x.cmp(&y) {
        std::cmp::Ordering::Less => -1,
        std::cmp::Ordering::Equal => 0,
        std::cmp::Ordering::Greater => 1,
    }
}

} // verus!
