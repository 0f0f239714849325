//! Exact decimal and rational numbers for reasoning about numeric literals in
//! predicates: every operation either gives the exact result or reports that it does
//! not fit in 128 bits.
use vstd::prelude::*;

use crate::predicate_text::{is_white, is_whitespace, split_once, split_once_view, string_from, trim_start};
use crate::text::{chars_of, has_prefix, starts_with};

verus! {

/// Ten to the power `e`.
pub open spec fn p10(e: nat) -> int
    decreases e,
{
    if e == 0 { 1 } else { 10 * p10((e - 1) as nat) }
}

pub proof fn lemma_p10_positive(e: nat)
    ensures
        p10(e) >= 1,
    decreases e,
{
    if e > 0 {
        lemma_p10_positive((e - 1) as nat);
    }
}

pub proof fn lemma_p10_adds(a: nat, b: nat)
    ensures
        p10(a + b) == p10(a) * p10(b),
    decreases a,
{
    if a > 0 {
        lemma_p10_adds((a - 1) as nat, b);
        assert(p10(a + b) == 10 * p10((a - 1 + b) as nat));
        let x = p10((a - 1) as nat);
        let y = p10(b);
        assert(10 * (x * y) == (10 * x) * y) by (nonlinear_arith);
    }
}

pub proof fn lemma_p10_increases(a: nat, b: nat)
    requires
        a <= b,
    ensures
        p10(a) <= p10(b),
    decreases b,
{
    if a < b {
        lemma_p10_increases(a, (b - 1) as nat);
        lemma_p10_positive((b - 1) as nat);
    }
}

/// A mantissa and scale with the trailing zeros of the mantissa dropped while the
/// scale allows: the same value with the fewest decimals.
pub open spec fn strip_zeros(m: int, s: nat) -> (int, nat)
    decreases s,
{
    if s > 0 && m % 10 == 0 { strip_zeros(m / 10, (s - 1) as nat) } else { (m, s) }
}

/// `m / 10^s` and `n / 10^t` are the same number.
pub open spec fn same_decimal(m: int, s: nat, n: int, t: nat) -> bool {
    m * p10(t) == n * p10(s)
}

/// Dropping trailing zeros keeps the value, and does not grow the mantissa.
pub proof fn lemma_strip_zeros(m: int, s: nat)
    ensures
        same_decimal(m, s, strip_zeros(m, s).0, strip_zeros(m, s).1),
        strip_zeros(m, s).1 <= s,
        m >= 0 ==> 0 <= strip_zeros(m, s).0 <= m,
        m <= 0 ==> m <= strip_zeros(m, s).0 <= 0,
    decreases s,
{
    if s > 0 && m % 10 == 0 {
        let q = m / 10;
        lemma_strip_zeros(q, (s - 1) as nat);
        let (m2, s2) = strip_zeros(q, (s - 1) as nat);
        let a = p10(s2);
        let b = p10((s - 1) as nat);
        assert(m == 10 * q);
        assert(q * a == m2 * b);
        assert(m * a == m2 * (10 * b)) by (nonlinear_arith)
            requires
                m == 10 * q,
                q * a == m2 * b,
        ;
    }
}

/// A decimal number: `mantissa / 10^scale`.
#[derive(Clone, Copy, Debug, PartialEq, Eq, Structural)]
pub struct RepairNumber {
    pub mantissa: i128,
    pub scale: u32,
}

/// Whether `x` fits in an `i128`.
pub open spec fn fits(x: int) -> bool {
    i128::MIN <= x <= i128::MAX
}

proof fn lemma_rem_ten(m: i128)
    ensures
        m.checked_rem(10) == Some(0i128) <==> m % 10 == 0,
        m % 10 == 0 ==> m.checked_div(10) == Some((m / 10) as i128),
{
    let x = m as int;
    if x < 0 {
        assert(((x * -1) % 10 == 0) == (x % 10 == 0)) by (nonlinear_arith);
        assert(x % 10 == 0 ==> ((x * -1) / 10) * -1 == x / 10) by (nonlinear_arith);
    }
}

impl RepairNumber {
    /// The number `mantissa / 10^scale` with trailing zeros dropped.
    pub fn from_raw(mantissa: i128, scale: u32) -> (r: RepairNumber)
        ensures
            (r.mantissa as int, r.scale as nat) == strip_zeros(mantissa as int, scale as nat),
    {
        let mut m = mantissa;
        let mut s = scale;
        loop
            invariant
                strip_zeros(m as int, s as nat) == strip_zeros(mantissa as int, scale as nat),
            decreases s,
        {
            proof { lemma_rem_ten(m); }
            let divisible = match m.checked_rem(10) {
                Some(rem) => rem == 0,
                None => false,
            };
            if s == 0 || !divisible {
                return RepairNumber { mantissa: m, scale: s };
            }
            m = match m.checked_div(10) {
                Some(q) => q,
                None => m,
            };
            s = s - 1;
        }
    }

    /// The number with its sign flipped, when that fits.
    pub fn negate(self) -> (r: Option<RepairNumber>)
        ensures
            r == number_negation(self),
            match r {
                Some(n) => n.mantissa == -self.mantissa && n.scale == self.scale,
                None => self.mantissa == i128::MIN,
            },
    {
        if self.mantissa == i128::MIN {
            None
        } else {
            Some(RepairNumber { mantissa: -self.mantissa, scale: self.scale })
        }
    }

    /// The mantissa of this number written with `scale` decimals, when `scale` is at
    /// least the number's own and the result fits.
    pub fn scaled_mantissa(self, scale: u32) -> (r: Option<i128>)
        ensures
            r == scaled_view(self, scale as nat),
    {
        if scale < self.scale {
            return None;
        }
        let extra = scale - self.scale;
        let factor = match checked_pow10(extra) {
            Some(f) => f,
            None => return None,
        };
        self.mantissa.checked_mul(factor)
    }

    /// The exact sum, when the mantissas at the larger scale and their sum fit.
    pub fn add(self, other: RepairNumber) -> (r: Option<RepairNumber>)
        ensures
            r == number_sum(self, other),
            match r {
                Some(n) => decimal_sum(self, other) == Some((n.mantissa as int, n.scale as nat)),
                None => decimal_sum(self, other) is None,
            },
    {
        let scale = if self.scale >= other.scale { self.scale } else { other.scale };
        let left = match self.scaled_mantissa(scale) {
            Some(l) => l,
            None => return None,
        };
        let right = match other.scaled_mantissa(scale) {
            Some(r) => r,
            None => return None,
        };
        match left.checked_add(right) {
            Some(sum) => Some(RepairNumber::from_raw(sum, scale)),
            None => None,
        }
    }

    /// The exact difference, when the negated subtrahend and the sum fit.
    pub fn sub(self, other: RepairNumber) -> (r: Option<RepairNumber>)
        ensures
            r == number_difference(self, other),
            match r {
                Some(n) => other.mantissa != i128::MIN
                    && decimal_sum(self, RepairNumber { mantissa: (-other.mantissa) as i128, scale: other.scale }) == Some((n.mantissa as int, n.scale as nat)),
                None => other.mantissa == i128::MIN
                    || decimal_sum(self, RepairNumber { mantissa: (-other.mantissa) as i128, scale: other.scale }) is None,
            },
    {
        match other.negate() {
            Some(negated) => self.add(negated),
            None => None,
        }
    }

    /// The exact product, when the product of the mantissas and the sum of the scales
    /// fit.
    pub fn mul(self, other: RepairNumber) -> (r: Option<RepairNumber>)
        ensures
            r == number_product(self, other),
            match r {
                Some(n) => fits(self.mantissa * other.mantissa) && self.scale + other.scale <= u32::MAX
                    && (n.mantissa as int, n.scale as nat) == strip_zeros(self.mantissa * other.mantissa, (self.scale + other.scale) as nat),
                None => !fits(self.mantissa * other.mantissa) || self.scale + other.scale > u32::MAX,
            },
    {
        let m = match self.mantissa.checked_mul(other.mantissa) {
            Some(m) => m,
            None => return None,
        };
        let s = match self.scale.checked_add(other.scale) {
            Some(s) => s,
            None => return None,
        };
        Some(RepairNumber::from_raw(m, s))
    }
}

/// The number with its sign flipped, when that fits.
pub open spec fn number_negation(a: RepairNumber) -> Option<RepairNumber> {
    if a.mantissa == i128::MIN { None } else { Some(RepairNumber { mantissa: (-a.mantissa) as i128, scale: a.scale }) }
}

/// The decimal a mantissa and scale stand for.
pub open spec fn decimal_of(p: (int, nat)) -> RepairNumber {
    RepairNumber { mantissa: p.0 as i128, scale: p.1 as u32 }
}

/// The exact sum, when it fits.
pub open spec fn number_sum(a: RepairNumber, b: RepairNumber) -> Option<RepairNumber> {
    match decimal_sum(a, b) {
        Some(p) => Some(decimal_of(p)),
        None => None,
    }
}

/// The exact difference, when it fits.
pub open spec fn number_difference(a: RepairNumber, b: RepairNumber) -> Option<RepairNumber> {
    match number_negation(b) {
        Some(n) => number_sum(a, n),
        None => None,
    }
}

/// The exact product, when it fits.
pub open spec fn number_product(a: RepairNumber, b: RepairNumber) -> Option<RepairNumber> {
    if fits(a.mantissa * b.mantissa) && a.scale + b.scale <= u32::MAX {
        Some(decimal_of(strip_zeros(a.mantissa * b.mantissa, (a.scale + b.scale) as nat)))
    } else {
        None
    }
}

/// Ten to the power `e`, when it fits in an `i128`.
pub fn checked_pow10(e: u32) -> (r: Option<i128>)
    ensures
        match r {
            Some(v) => v == p10(e as nat) && p10(e as nat) <= i128::MAX,
            None => p10(e as nat) > i128::MAX,
        },
{
    let mut acc: i128 = 1;
    let mut k: u32 = 0;
    while k < e
        invariant
            0 <= k <= e,
            acc == p10(k as nat),
        decreases e - k,
    {
        proof { lemma_p10_positive(k as nat); }
        match acc.checked_mul(10) {
            Some(next) => {
                acc = next;
            },
            None => {
                proof { lemma_p10_increases((k + 1) as nat, e as nat); }
                return None;
            },
        }
        k += 1;
    }
    Some(acc)
}

/// The mantissa of `n` written with `scale` decimals, when that scale is at least the
/// number's own and the result fits.
pub open spec fn scaled_view(n: RepairNumber, scale: nat) -> Option<i128> {
    if scale < n.scale {
        None
    } else {
        let factor = p10((scale - n.scale) as nat);
        if factor > i128::MAX || !fits(n.mantissa * factor) {
            None
        } else {
            Some((n.mantissa * factor) as i128)
        }
    }
}

/// The exact sum of two decimals at the larger of their scales, trailing zeros
/// dropped, when the scaled mantissas and their sum fit.
pub open spec fn decimal_sum(a: RepairNumber, b: RepairNumber) -> Option<(int, nat)> {
    let scale: nat = if a.scale >= b.scale { a.scale as nat } else { b.scale as nat };
    match (scaled_view(a, scale), scaled_view(b, scale)) {
        (Some(l), Some(r)) => if fits(l + r) { Some(strip_zeros(l + r, scale)) } else { None },
        _ => None,
    }
}

/// The value of a sum is the sum of the values: both numbers written with the larger
/// of their scales `S`, the result `m / 10^s` equals the sum of their mantissas over
/// `10^S`.
pub proof fn law_decimal_sum_exact(a: RepairNumber, b: RepairNumber)
    requires
        decimal_sum(a, b) is Some,
    ensures
        ({
            let (m, s) = decimal_sum(a, b)->0;
            let scale: nat = if a.scale >= b.scale { a.scale as nat } else { b.scale as nat };
            m * p10(scale) == (a.mantissa * p10((scale - a.scale) as nat) + b.mantissa * p10((scale - b.scale) as nat)) * p10(s)
        }),
{
    let scale: nat = if a.scale >= b.scale { a.scale as nat } else { b.scale as nat };
    let l = a.mantissa * p10((scale - a.scale) as nat);
    let r = b.mantissa * p10((scale - b.scale) as nat);
    lemma_strip_zeros(l + r, scale);
}

/// The greatest common divisor, by Euclid's algorithm.
pub open spec fn gcd(a: nat, b: nat) -> nat
    decreases b,
{
    if b == 0 { a } else { gcd(b, a % b) }
}

/// The greatest common divisor divides both numbers.
pub proof fn lemma_gcd_divides(a: nat, b: nat) -> (k: (int, int))
    ensures
        a == gcd(a, b) * k.0,
        b == gcd(a, b) * k.1,
    decreases b,
{
    if b == 0 {
        (1, 0)
    } else {
        let g = gcd(a, b);
        let (kb, kr) = lemma_gcd_divides(b, a % b);
        let q = a / b;
        let rm = a % b;
        assert(a == b * q + rm) by (nonlinear_arith)
            requires
                b > 0,
                q == a / b,
                rm == a % b,
        ;
        assert(g == gcd(b, rm));
        let ai = a as int;
        let bi = b as int;
        let gi = g as int;
        let rmi = rm as int;
        assert(ai == gi * (kb * q + kr)) by (nonlinear_arith)
            requires
                ai == bi * q + rmi,
                bi == gi * kb,
                rmi == gi * kr,
        ;
        (kb * q + kr, kb)
    }
}

/// The greatest common divisor is positive unless both numbers are zero.
pub proof fn lemma_gcd_positive(a: nat, b: nat)
    ensures
        (a > 0 || b > 0) ==> gcd(a, b) > 0,
    decreases b,
{
    if b > 0 {
        lemma_gcd_positive(b, a % b);
    }
}

/// The absolute value.
pub open spec fn abs(x: int) -> nat {
    if x < 0 { (-x) as nat } else { x as nat }
}

/// The greatest common divisor of two `i128`s, when neither is `i128::MIN` (whose
/// absolute value does not fit) and not both are zero.
pub open spec fn gcd_view(left: int, right: int) -> Option<int> {
    if left == i128::MIN || right == i128::MIN {
        None
    } else if gcd(abs(left), abs(right)) == 0 {
        None
    } else {
        Some(gcd(abs(left), abs(right)) as int)
    }
}

/// The greatest common divisor of two integers, when their absolute values fit and it
/// is not zero.
pub fn repair_gcd_i128(left: i128, right: i128) -> (r: Option<i128>)
    ensures
        match r {
            Some(g) => gcd_view(left as int, right as int) == Some(g as int),
            None => gcd_view(left as int, right as int) is None,
        },
{
    if left == i128::MIN || right == i128::MIN {
        return None;
    }
    let mut l: i128 = if left < 0 { -left } else { left };
    let mut r: i128 = if right < 0 { -right } else { right };
    while r != 0
        invariant
            l >= 0,
            r >= 0,
            gcd(l as nat, r as nat) == gcd(abs(left as int), abs(right as int)),
        decreases r,
    {
        let rem = match l.checked_rem(r) {
            Some(x) => x,
            None => 0,
        };
        proof {
            if l == 0 {
                assert((0int) % (r as int) == 0) by (nonlinear_arith)
                    requires
                        r > 0,
                ;
            }
        }
        assert(rem == (l as int) % (r as int));
        l = r;
        r = rem;
    }
    if l != 0 {
        Some(l)
    } else {
        None
    }
}

/// A rational number `numerator / denominator`, kept with a positive denominator and
/// in lowest terms.
#[derive(Clone, Copy, Debug, PartialEq, Eq, Structural)]
pub struct RepairRational {
    pub numerator: i128,
    pub denominator: i128,
}

/// `n / d` in lowest terms with a positive denominator: the sign moved to the
/// numerator, then both divided by their greatest common divisor; `None` when `d` is
/// zero or a value on the way does not fit.
pub open spec fn rational_view(n: int, d: int) -> Option<(int, int)> {
    if d == 0 {
        None
    } else {
        let n1 = if d < 0 { -n } else { n };
        let d1 = if d < 0 { -d } else { d };
        if !fits(n1) || !fits(d1) {
            None
        } else {
            match gcd_view(n1, d1) {
                Some(g) => Some((n1 / g, d1 / g)),
                None => None,
            }
        }
    }
}

proof fn lemma_exact_div(x: int, g: int, k: int)
    requires
        g > 0,
        x == g * k,
    ensures
        x / g == k,
        (x * -1) / g == -k,
        x < 0 ==> ((x * -1) / g) * -1 == x / g,
{
    assert(x / g == k) by (nonlinear_arith)
        requires
            g > 0,
            x == g * k,
    ;
    assert((x * -1) / g == -k) by (nonlinear_arith)
        requires
            g > 0,
            x == g * k,
    ;
}

/// A rational in lowest terms is the same number: `r.0 * d == n * r.1`, with a
/// positive denominator.
pub proof fn law_rational_exact(n: int, d: int)
    requires
        rational_view(n, d) is Some,
    ensures
        ({
            let (p, q) = rational_view(n, d)->0;
            p * d == n * q && q > 0
        }),
{
    let n1 = if d < 0 { -n } else { n };
    let d1 = if d < 0 { -d } else { d };
    let g = gcd(abs(n1), abs(d1)) as int;
    let (ka, kb) = lemma_gcd_divides(abs(n1), abs(d1));
    let kn = if n1 < 0 { -ka } else { ka };
    assert(n1 == g * kn) by (nonlinear_arith)
        requires
            abs(n1) == g * ka,
            kn == if n1 < 0 { -ka } else { ka },
            abs(n1) == if n1 < 0 { -n1 } else { n1 },
    ;
    assert(d1 == g * kb);
    lemma_exact_div(n1, g, kn);
    lemma_exact_div(d1, g, kb);
    assert(kn * d1 == n1 * kb) by (nonlinear_arith)
        requires
            n1 == g * kn,
            d1 == g * kb,
    ;
    assert(kb > 0) by (nonlinear_arith)
        requires
            d1 == g * kb,
            d1 > 0,
            g > 0,
    ;
    if d < 0 {
        assert(kn * d == n * kb) by (nonlinear_arith)
            requires
                kn * d1 == n1 * kb,
                n1 == -n,
                d1 == -d,
        ;
    }
}

/// The rational `n / d` in lowest terms, when it exists and fits.
pub open spec fn rational_of(n: int, d: int) -> Option<RepairRational> {
    match rational_view(n, d) {
        Some((p, q)) => Some(RepairRational { numerator: p as i128, denominator: q as i128 }),
        None => None,
    }
}

/// The rational with the value of a decimal, when ten to its scale fits.
pub open spec fn rational_of_number(x: RepairNumber) -> Option<RepairRational> {
    if p10(x.scale as nat) > i128::MAX { None } else { rational_of(x.mantissa as int, p10(x.scale as nat)) }
}

/// The rational with its sign flipped, when that fits.
pub open spec fn rational_negation(a: RepairRational) -> Option<RepairRational> {
    if a.numerator == i128::MIN {
        None
    } else {
        Some(RepairRational { numerator: (-a.numerator) as i128, denominator: a.denominator })
    }
}

/// The exact sum of two rationals in lowest terms, when it fits.
pub open spec fn rational_addition(a: RepairRational, b: RepairRational) -> Option<RepairRational> {
    match rational_sum(a, b) {
        Some((p, q)) => Some(RepairRational { numerator: p as i128, denominator: q as i128 }),
        None => None,
    }
}

/// The exact difference of two rationals in lowest terms, when it fits.
pub open spec fn rational_subtraction(a: RepairRational, b: RepairRational) -> Option<RepairRational> {
    match rational_negation(b) {
        Some(n) => rational_addition(a, n),
        None => None,
    }
}

/// The exact product of two rationals in lowest terms, when it fits.
pub open spec fn rational_product(a: RepairRational, b: RepairRational) -> Option<RepairRational> {
    if fits(a.numerator * b.numerator) && fits(a.denominator * b.denominator) {
        rational_of(a.numerator * b.numerator, a.denominator * b.denominator)
    } else {
        None
    }
}

/// The exact quotient of two rationals in lowest terms, when it exists and fits.
pub open spec fn rational_quotient(a: RepairRational, b: RepairRational) -> Option<RepairRational> {
    if fits(a.numerator * b.denominator) && fits(a.denominator * b.numerator) {
        rational_of(a.numerator * b.denominator, a.denominator * b.numerator)
    } else {
        None
    }
}

impl RepairRational {
    /// `numerator / denominator` in lowest terms with a positive denominator.
    pub fn from_raw(numerator: i128, denominator: i128) -> (r: Option<RepairRational>)
        ensures
            r == rational_of(numerator as int, denominator as int),
            match r {
                Some(q) => rational_view(numerator as int, denominator as int) == Some((q.numerator as int, q.denominator as int)),
                None => rational_view(numerator as int, denominator as int) is None,
            },
    {
        if denominator == 0 {
            return None;
        }
        let mut n = numerator;
        let mut d = denominator;
        if d < 0 {
            if n == i128::MIN || d == i128::MIN {
                return None;
            }
            n = -n;
            d = -d;
        }
        let g = match repair_gcd_i128(n, d) {
            Some(g) => g,
            None => return None,
        };
        proof {
            let (ka, kb) = lemma_gcd_divides(abs(n as int), abs(d as int));
            let kn = if n < 0 { -ka } else { ka };
            assert(n == g * kn) by (nonlinear_arith)
                requires
                    abs(n as int) == g * ka,
                    kn == if n < 0 { -ka } else { ka },
                    abs(n as int) == if n < 0 { -(n as int) } else { n as int },
            ;
            lemma_exact_div(n as int, g as int, kn);
            lemma_exact_div(d as int, g as int, kb);
        }
        let nn = match n.checked_div(g) {
            Some(x) => x,
            None => return None,
        };
        let dd = match d.checked_div(g) {
            Some(x) => x,
            None => return None,
        };
        Some(RepairRational { numerator: nn, denominator: dd })
    }

    /// The rational with the value of a decimal, when ten to its scale fits.
    pub fn from_number(number: RepairNumber) -> (r: Option<RepairRational>)
        ensures
            r == rational_of_number(number),
            match r {
                Some(q) => p10(number.scale as nat) <= i128::MAX
                    && rational_view(number.mantissa as int, p10(number.scale as nat)) == Some((q.numerator as int, q.denominator as int)),
                None => p10(number.scale as nat) > i128::MAX || rational_view(number.mantissa as int, p10(number.scale as nat)) is None,
            },
    {
        match checked_pow10(number.scale) {
            Some(d) => RepairRational::from_raw(number.mantissa, d),
            None => None,
        }
    }

    /// The rational with its sign flipped, when that fits.
    pub fn negate(self) -> (r: Option<RepairRational>)
        ensures
            r == rational_negation(self),
            match r {
                Some(q) => q.numerator == -self.numerator && q.denominator == self.denominator,
                None => self.numerator == i128::MIN,
            },
    {
        if self.numerator == i128::MIN {
            None
        } else {
            Some(RepairRational { numerator: -self.numerator, denominator: self.denominator })
        }
    }

    /// The exact sum in lowest terms, when the cross products fit.
    pub fn add(self, other: RepairRational) -> (r: Option<RepairRational>)
        ensures
            r == rational_addition(self, other),
            match r {
                Some(q) => rational_sum(self, other) == Some((q.numerator as int, q.denominator as int)),
                None => rational_sum(self, other) is None,
            },
    {
        let left = match self.numerator.checked_mul(other.denominator) {
            Some(x) => x,
            None => return None,
        };
        let right = match other.numerator.checked_mul(self.denominator) {
            Some(x) => x,
            None => return None,
        };
        let n = match left.checked_add(right) {
            Some(x) => x,
            None => return None,
        };
        let d = match self.denominator.checked_mul(other.denominator) {
            Some(x) => x,
            None => return None,
        };
        RepairRational::from_raw(n, d)
    }

    /// This rational plus an integer.
    pub fn add_int(self, integer: i128) -> (r: Option<RepairRational>)
        ensures
            r == rational_plus_int(self, integer as int),
            match r {
                Some(q) => rational_view(integer as int, 1) is Some && rational_sum(self, RepairRational { numerator: integer, denominator: 1 })
                    == Some((q.numerator as int, q.denominator as int)),
                None => rational_view(integer as int, 1) is None
                    || rational_sum(self, RepairRational { numerator: integer, denominator: 1 }) is None,
            },
    {
        match RepairRational::from_raw(integer, 1) {
            Some(i) => {
                proof { lemma_rational_integer(integer as int); }
                self.add(i)
            },
            None => None,
        }
    }

    /// Whether the rational is an integer.
    pub fn is_integer(&self) -> (r: bool)
        ensures
            r == (self.denominator == 1),
    {
        self.denominator == 1
    }

    /// The exact difference in lowest terms, when it fits.
    pub fn sub(self, other: RepairRational) -> (r: Option<RepairRational>)
        ensures
            r == rational_subtraction(self, other),
            match r {
                Some(q) => other.numerator != i128::MIN && rational_sum(self, RepairRational {
                    numerator: (-other.numerator) as i128,
                    denominator: other.denominator,
                }) == Some((q.numerator as int, q.denominator as int)),
                None => other.numerator == i128::MIN || rational_sum(self, RepairRational {
                    numerator: (-other.numerator) as i128,
                    denominator: other.denominator,
                }) is None,
            },
    {
        match other.negate() {
            Some(n) => self.add(n),
            None => None,
        }
    }

    /// The exact product in lowest terms, when the products fit.
    pub fn mul(self, other: RepairRational) -> (r: Option<RepairRational>)
        ensures
            r == rational_product(self, other),
            match r {
                Some(q) => fits(self.numerator * other.numerator) && fits(self.denominator * other.denominator)
                    && rational_view(self.numerator * other.numerator, self.denominator * other.denominator)
                        == Some((q.numerator as int, q.denominator as int)),
                None => !fits(self.numerator * other.numerator) || !fits(self.denominator * other.denominator)
                    || rational_view(self.numerator * other.numerator, self.denominator * other.denominator) is None,
            },
    {
        let n = match self.numerator.checked_mul(other.numerator) {
            Some(x) => x,
            None => return None,
        };
        let d = match self.denominator.checked_mul(other.denominator) {
            Some(x) => x,
            None => return None,
        };
        RepairRational::from_raw(n, d)
    }

    /// The exact quotient in lowest terms, when the cross products fit and the divisor
    /// is not zero.
    pub fn div(self, other: RepairRational) -> (r: Option<RepairRational>)
        ensures
            r == rational_quotient(self, other),
            match r {
                Some(q) => fits(self.numerator * other.denominator) && fits(self.denominator * other.numerator)
                    && rational_view(self.numerator * other.denominator, self.denominator * other.numerator)
                        == Some((q.numerator as int, q.denominator as int)),
                None => !fits(self.numerator * other.denominator) || !fits(self.denominator * other.numerator)
                    || rational_view(self.numerator * other.denominator, self.denominator * other.numerator) is None,
            },
    {
        let n = match self.numerator.checked_mul(other.denominator) {
            Some(x) => x,
            None => return None,
        };
        let d = match self.denominator.checked_mul(other.numerator) {
            Some(x) => x,
            None => return None,
        };
        RepairRational::from_raw(n, d)
    }
}

/// A rational plus an integer, when the integer is a rational and the sum fits.
pub open spec fn rational_plus_int(q: RepairRational, i: int) -> Option<RepairRational> {
    match rational_of(i, 1) {
        Some(x) => rational_addition(q, x),
        None => None,
    }
}

/// The exact sum of two rationals in lowest terms, when the cross products fit.
pub open spec fn rational_sum(a: RepairRational, b: RepairRational) -> Option<(int, int)> {
    let l = a.numerator * b.denominator;
    let r = b.numerator * a.denominator;
    let d = a.denominator * b.denominator;
    if !fits(l) || !fits(r) || !fits(l + r) || !fits(d) { None } else { rational_view(l + r, d) }
}

proof fn lemma_rational_integer(i: int)
    requires
        rational_view(i, 1) is Some,
    ensures
        rational_view(i, 1) == Some((i, 1int)),
{
    assert(gcd(abs(i), 1) == 1) by {
        assert(abs(i) % 1 == 0);
        assert(gcd(1, 0) == 1);
        assert(gcd(abs(i), 1) == gcd(1, abs(i) % 1));
    }
    assert(i / 1 == i);
    assert(1int / 1 == 1);
}

/// Whether `c` is an ASCII digit.
pub open spec fn is_digit(c: char) -> bool {
    '0' <= c && c <= '9'
}

/// Whether every character of `s` is an ASCII digit.
pub open spec fn all_digits(s: Seq<char>) -> bool {
    forall|i: int| 0 <= i < s.len() ==> is_digit(#[trigger] s[i])
}

/// The number the decimal digits `s` spell.
pub open spec fn digits_value(s: Seq<char>) -> int
    decreases s.len(),
{
    if s.len() == 0 { 0 } else { digits_value(s.drop_last()) * 10 + (s.last() as int - '0' as int) }
}

/// The decimal a literal such as `-12.50` spells: an optional `-` (with white space
/// after it), digits, and optionally `.` and more digits; as a mantissa and scale with
/// trailing zeros dropped, when the mantissa fits in an `i128`.
pub open spec fn number_literal(text: Seq<char>) -> Option<(int, nat)> {
    let negative = has_prefix(text, "-"@);
    let digits = if negative { trim_start(text.skip(1)) } else { text };
    let parts = split_once_view(digits, "."@);
    let integer = match parts { Some((a, _)) => a, None => digits };
    let fraction = match parts { Some((_, b)) => b, None => Seq::<char>::empty() };
    if digits.len() == 0 || integer.len() == 0 || !all_digits(integer) || !all_digits(fraction)
        || (parts is Some && fraction.len() == 0) {
        None
    } else {
        let magnitude = digits_value(integer + fraction);
        let value = if negative { -magnitude } else { magnitude };
        if !fits(value) { None } else { Some(strip_zeros(value, (fraction.len() as u32) as nat)) }
    }
}

proof fn lemma_digits_value_grows(s: Seq<char>, k: int)
    requires
        all_digits(s),
        0 <= k <= s.len(),
    ensures
        0 <= digits_value(s.take(k)) <= digits_value(s),
    decreases s.len() - k,
{
    if k < s.len() {
        lemma_digits_value_grows(s, k + 1);
        assert(s.take(k + 1).drop_last() =~= s.take(k));
        assert(is_digit(s[k]));
    } else {
        assert(s.take(k) =~= s);
    }
    lemma_digits_value_nonneg(s.take(k));
}

proof fn lemma_digits_value_nonneg(s: Seq<char>)
    requires
        all_digits(s),
    ensures
        digits_value(s) >= 0,
    decreases s.len(),
{
    if s.len() > 0 {
        lemma_digits_value_nonneg(s.drop_last());
        assert(is_digit(s.last()));
    }
}

/// `s` without leading white space.
fn trim_start_text(v: &Vec<char>, from: usize) -> (r: Vec<char>)
    requires
        from <= v@.len(),
    ensures
        r@ == trim_start(v@.skip(from as int)),
{
    let mut i = from;
    while i < v.len() && is_whitespace(v[i])
        invariant
            from <= i <= v@.len(),
            trim_start(v@.skip(from as int)) == trim_start(v@.skip(i as int)),
        decreases v.len() - i,
    {
        assert(v@.skip(i as int).drop_first() =~= v@.skip(i + 1));
        i += 1;
    }
    let mut out: Vec<char> = Vec::new();
    let mut k = i;
    while k < v.len()
        invariant
            i <= k <= v@.len(),
            out@ == v@.subrange(i as int, k as int),
        decreases v.len() - k,
    {
        out.push(v[k]);
        assert(out@ =~= v@.subrange(i as int, k + 1));
        k += 1;
    }
    assert(v@.skip(i as int) =~= v@.subrange(i as int, v@.len() as int));
    out
}

/// The decimal a number literal spells, with trailing zeros dropped, when its mantissa
/// fits in an `i128`.
pub fn parse_repair_number_literal(text: &str) -> (r: Option<RepairNumber>)
    ensures
        match r {
            Some(n) => number_literal(text@) == Some((n.mantissa as int, n.scale as nat)),
            None => number_literal(text@) is None,
        },
{
    proof {
        reveal_strlit("-");
        reveal_strlit(".");
    }
    let negative = starts_with(text, "-");
    let all = chars_of(text);
    let digits_v: Vec<char> = if negative {
        trim_start_text(&all, 1)
    } else {
        all
    };
    let ghost digits = if negative { trim_start(text@.skip(1)) } else { text@ };
    assert(digits_v@ == digits);
    if digits_v.len() == 0 {
        return None;
    }
    let digits_s = string_from(&digits_v, 0, digits_v.len());
    assert(digits_v@.subrange(0, digits_v@.len() as int) =~= digits_v@);
    let parts = split_once(digits_s.as_str(), ".");
    let has_dot = parts.is_some();
    let (integer, fraction) = match parts {
        Some((a, b)) => (a, b),
        None => (string_from(&digits_v, 0, digits_v.len()), String::new()),
    };
    let iv = chars_of(integer.as_str());
    let fv = chars_of(fraction.as_str());
    if iv.len() == 0 || !digits_only(&iv) || !digits_only(&fv) || (has_dot && fv.len() == 0) {
        return None;
    }
    let mut wv: Vec<char> = iv.clone();
    let mut j: usize = 0;
    while j < fv.len()
        invariant
            0 <= j <= fv@.len(),
            wv@ == iv@ + fv@.take(j as int),
        decreases fv.len() - j,
    {
        wv.push(fv[j]);
        assert(wv@ =~= iv@ + fv@.take(j + 1));
        j += 1;
    }
    assert(fv@.take(fv@.len() as int) =~= fv@);
    let ghost whole = iv@ + fv@;
    assert(wv@ == whole);
    let mut acc: i128 = 0;
    let mut k: usize = 0;
    let total = wv.len();
    proof { lemma_digits_value_grows(whole, 0); }
    assert(whole.take(0) =~= Seq::<char>::empty());
    while k < total
        invariant
            0 <= k <= total,
            total == whole.len(),
            wv@ == whole,
            all_digits(whole),
            acc == (if negative { -digits_value(whole.take(k as int)) } else { digits_value(whole.take(k as int)) }),
        decreases total - k,
    {
        let c = wv[k];
        assert(is_digit(c));
        let d = (c as u32 - '0' as u32) as i128;
        assert(whole.take(k + 1).drop_last() =~= whole.take(k as int));
        proof { lemma_digits_value_grows(whole, k + 1); }
        let times = match acc.checked_mul(10) {
            Some(x) => x,
            None => return None,
        };
        let next = if negative { times.checked_sub(d) } else { times.checked_add(d) };
        match next {
            Some(x) => {
                acc = x;
            },
            None => return None,
        }
        k += 1;
    }
    assert(whole.take(total as int) =~= whole);
    let scale = fv.len() as u32;
    Some(RepairNumber::from_raw(acc, scale))
}

/// Whether every character of `v` is an ASCII digit.
fn digits_only(v: &Vec<char>) -> (r: bool)
    ensures
        r == all_digits(v@),
{
    let mut i: usize = 0;
    while i < v.len()
        invariant
            0 <= i <= v@.len(),
            forall|k: int| 0 <= k < i ==> is_digit(#[trigger] v@[k]),
        decreases v.len() - i,
    {
        if !('0' <= v[i] && v[i] <= '9') {
            return false;
        }
        i += 1;
    }
    true
}

/// `b` to the power `e`.
pub open spec fn ipow(b: int, e: nat) -> int
    decreases e,
{
    if e == 0 { 1 } else { b * ipow(b, (e - 1) as nat) }
}

pub proof fn lemma_ipow_positive(b: int, e: nat)
    requires
        b >= 1,
    ensures
        ipow(b, e) >= 1,
    decreases e,
{
    if e > 0 {
        lemma_ipow_positive(b, (e - 1) as nat);
        assert(b * ipow(b, (e - 1) as nat) >= 1) by (nonlinear_arith)
            requires
                b >= 1,
                ipow(b, (e - 1) as nat) >= 1,
        ;
    }
}

pub proof fn lemma_ipow_increases(b: int, e1: nat, e2: nat)
    requires
        b >= 1,
        e1 <= e2,
    ensures
        ipow(b, e1) <= ipow(b, e2),
    decreases e2,
{
    if e1 < e2 {
        lemma_ipow_increases(b, e1, (e2 - 1) as nat);
        lemma_ipow_positive(b, (e2 - 1) as nat);
        assert(b * ipow(b, (e2 - 1) as nat) >= ipow(b, (e2 - 1) as nat)) by (nonlinear_arith)
            requires
                b >= 1,
                ipow(b, (e2 - 1) as nat) >= 1,
        ;
    }
}

pub proof fn lemma_ipow_adds(b: int, e1: nat, e2: nat)
    ensures
        ipow(b, e1 + e2) == ipow(b, e1) * ipow(b, e2),
    decreases e1,
{
    if e1 > 0 {
        lemma_ipow_adds(b, (e1 - 1) as nat, e2);
        assert(ipow(b, e1 + e2) == b * ipow(b, (e1 - 1 + e2) as nat));
        let x = ipow(b, (e1 - 1) as nat);
        let y = ipow(b, e2);
        assert(b * (x * y) == (b * x) * y) by (nonlinear_arith);
    }
}

/// Ten to a power is two to it times five to it.
pub proof fn lemma_p10_splits(e: nat)
    ensures
        p10(e) == ipow(2, e) * ipow(5, e),
    decreases e,
{
    if e > 0 {
        lemma_p10_splits((e - 1) as nat);
        let a = ipow(2, (e - 1) as nat);
        let b = ipow(5, (e - 1) as nat);
        assert(10 * (a * b) == (2 * a) * (5 * b)) by (nonlinear_arith);
    }
}

/// `b` to the power `e`, when it fits in an `i128`.
pub fn checked_ipow(b: i128, e: u32) -> (r: Option<i128>)
    requires
        b >= 1,
    ensures
        match r {
            Some(v) => v == ipow(b as int, e as nat) && ipow(b as int, e as nat) <= i128::MAX,
            None => ipow(b as int, e as nat) > i128::MAX,
        },
{
    let mut acc: i128 = 1;
    let mut k: u32 = 0;
    while k < e
        invariant
            0 <= k <= e,
            b >= 1,
            acc == ipow(b as int, k as nat),
        decreases e - k,
    {
        proof { lemma_ipow_positive(b as int, k as nat); }
        match acc.checked_mul(b) {
            Some(next) => {
                assert(next == ipow(b as int, (k + 1) as nat)) by (nonlinear_arith)
                    requires
                        next == acc * b,
                        acc == ipow(b as int, k as nat),
                        ipow(b as int, (k + 1) as nat) == b * ipow(b as int, k as nat),
                ;
                acc = next;
            },
            None => {
                assert(ipow(b as int, (k + 1) as nat) == b * ipow(b as int, k as nat));
                assert(acc * b == ipow(b as int, (k + 1) as nat)) by (nonlinear_arith)
                    requires
                        acc == ipow(b as int, k as nat),
                        ipow(b as int, (k + 1) as nat) == b * ipow(b as int, k as nat),
                ;
                proof { lemma_ipow_increases(b as int, (k + 1) as nat, e as nat); }
                return None;
            },
        }
        k += 1;
    }
    Some(acc)
}

/// `2^twos * 5^fives`, when each power and the product fit.
pub open spec fn divisor_scale_view(twos: nat, fives: nat) -> Option<int> {
    let a = ipow(2, twos);
    let b = ipow(5, fives);
    if a > i128::MAX || b > i128::MAX || !fits(a * b) { None } else { Some(a * b) }
}

/// `2^twos * 5^fives`, when each power and the product fit.
pub fn repair_divisor_scale(twos: u32, fives: u32) -> (r: Option<i128>)
    ensures
        match r {
            Some(v) => divisor_scale_view(twos as nat, fives as nat) == Some(v as int),
            None => divisor_scale_view(twos as nat, fives as nat) is None,
        },
{
    let a = match checked_ipow(2, twos) {
        Some(a) => a,
        None => return None,
    };
    let b = match checked_ipow(5, fives) {
        Some(b) => b,
        None => return None,
    };
    a.checked_mul(b)
}

proof fn lemma_p2_bound(e: nat)
    requires
        ipow(2, e) <= i128::MAX,
    ensures
        e < 128,
{
    if e >= 128 {
        lemma_ipow_adds(2, 64, 64);
        lemma_ipow_adds(2, 32, 32);
        lemma_ipow_adds(2, 16, 16);
        lemma_ipow_adds(2, 8, 8);
        reveal_with_fuel(ipow, 9);
        assert(ipow(2, 8) == 256);
        let a = ipow(2, 16);
        assert(a == 256 * 256);
        let b = ipow(2, 32);
        assert(b == a * a);
        assert(b == 4294967296) by (nonlinear_arith)
            requires
                b == a * a,
                a == 65536,
        ;
        let c = ipow(2, 64);
        assert(c == b * b);
        assert(c == 18446744073709551616) by (nonlinear_arith)
            requires
                c == b * b,
                b == 4294967296,
        ;
        let d = ipow(2, 128);
        assert(d == c * c);
        assert(d == 340282366920938463463374607431768211456) by (nonlinear_arith)
            requires
                d == c * c,
                c == 18446744073709551616,
        ;
        lemma_ipow_increases(2, 128, e);
    }
}

proof fn lemma_p5_above_p2(e: nat)
    ensures
        ipow(2, e) <= ipow(5, e),
    decreases e,
{
    if e > 0 {
        lemma_p5_above_p2((e - 1) as nat);
        lemma_ipow_positive(2, (e - 1) as nat);
    }
}

pub proof fn lemma_div_smaller(d: int, p: int)
    requires
        d > 0,
        p >= 2,
    ensures
        0 <= d / p < d,
{
    assert(0 <= d / p < d) by (nonlinear_arith)
        requires
            d > 0,
            p >= 2,
    ;
}

/// `d` with every factor `p` divided out, and how many there were.
pub open spec fn strip_factor(d: int, p: int) -> (int, nat)
    decreases d,
{
    if d > 0 && p >= 2 && d % p == 0 {
        proof { lemma_div_smaller(d, p); }
        let (rest, k) = strip_factor(d / p, p);
        (rest, k + 1)
    } else {
        (d, 0)
    }
}

/// The fraction `a / b` in lowest terms with a positive denominator: both numbers
/// brought to integers (`a.m * 10^b.s` over `b.m * 10^a.s`), the sign moved to the
/// numerator, and both divided by their greatest common divisor; `None` when the
/// divisor is zero or a value on the way does not fit in an `i128`.
pub open spec fn reduced_quotient(a: RepairNumber, b: RepairNumber) -> Option<(int, int)> {
    let pb = p10(b.scale as nat);
    let pa = p10(a.scale as nat);
    if b.mantissa == 0 || pb > i128::MAX || pa > i128::MAX || !fits(a.mantissa * pb) || !fits(b.mantissa * pa) {
        None
    } else {
        let n0 = a.mantissa * pb;
        let d0 = b.mantissa * pa;
        let n1 = if d0 < 0 { -n0 } else { n0 };
        let d1 = if d0 < 0 { -d0 } else { d0 };
        if !fits(n1) || !fits(d1) {
            None
        } else {
            match gcd_view(n1, d1) {
                None => None,
                Some(g) => Some((n1 / g, d1 / g)),
            }
        }
    }
}

/// The decimal `n / d` for a positive `d`: when `d` is `2^t * 5^f`, the numerator
/// scaled to `max(t, f)` decimals and divided by `d`, trailing zeros dropped; `None`
/// when `d` has another prime factor or a value on the way does not fit.
pub open spec fn finite_decimal(n: int, d: int) -> Option<RepairNumber> {
    let (d3, t) = strip_factor(d, 2);
    let (d4, f) = strip_factor(d3, 5);
    let sc: nat = if t >= f { t } else { f };
    if d4 != 1 || p10(sc) > i128::MAX || !fits(n * p10(sc)) || divisor_scale_view(t, f) is None {
        None
    } else {
        let m = (n * p10(sc)) / (ipow(2, t) * ipow(5, f));
        let (qm, qs) = strip_zeros(m, sc);
        Some(RepairNumber { mantissa: qm as i128, scale: qs as u32 })
    }
}

/// The quotient `a / b` as a decimal, when it has a finite decimal expansion and every
/// value on the way fits in an `i128`.
pub open spec fn decimal_quotient(a: RepairNumber, b: RepairNumber) -> Option<RepairNumber> {
    match reduced_quotient(a, b) {
        Some((n, d)) => finite_decimal(n, d),
        None => None,
    }
}

/// `q` is the exact quotient `a / b`.
pub open spec fn exact_quotient(a: RepairNumber, b: RepairNumber, q: RepairNumber) -> bool {
    q.mantissa * b.mantissa * p10(a.scale as nat) == a.mantissa * p10(b.scale as nat) * p10(q.scale as nat)
}

/// The fraction `a / b` in lowest terms with a positive denominator.
fn reduced_quotient_fraction(a: RepairNumber, b: RepairNumber) -> (r: Option<(i128, i128)>)
    ensures
        match r {
            Some((n, d)) => reduced_quotient(a, b) == Some((n as int, d as int)) && d >= 1
                && n * (b.mantissa * p10(a.scale as nat)) == (a.mantissa * p10(b.scale as nat)) * d,
            None => reduced_quotient(a, b) is None,
        },
{
    if b.mantissa == 0 {
        return None;
    }
    let pb = match checked_pow10(b.scale) {
        Some(x) => x,
        None => return None,
    };
    let pa = match checked_pow10(a.scale) {
        Some(x) => x,
        None => return None,
    };
    let n0 = match a.mantissa.checked_mul(pb) {
        Some(x) => x,
        None => return None,
    };
    let d0 = match b.mantissa.checked_mul(pa) {
        Some(x) => x,
        None => return None,
    };
    proof { lemma_p10_positive(a.scale as nat); }
    assert(d0 != 0) by (nonlinear_arith)
        requires
            d0 == b.mantissa * pa,
            b.mantissa != 0,
            pa >= 1,
    ;
    let mut numerator = n0;
    let mut denominator = d0;
    if denominator < 0 {
        if numerator == i128::MIN || denominator == i128::MIN {
            return None;
        }
        numerator = -numerator;
        denominator = -denominator;
    }
    assert(numerator * d0 == n0 * denominator) by (nonlinear_arith)
        requires
            (numerator == n0 && denominator == d0) || (numerator == -n0 && denominator == -d0),
    ;
    let g = match repair_gcd_i128(numerator, denominator) {
        Some(g) => g,
        None => return None,
    };
    let ghost n1 = numerator as int;
    let ghost d1 = denominator as int;
    proof {
        let (ka, kb) = lemma_gcd_divides(abs(n1), abs(d1));
        let kn = if n1 < 0 { -ka } else { ka };
        assert(n1 == g * kn) by (nonlinear_arith)
            requires
                abs(n1) == g * ka,
                kn == if n1 < 0 { -ka } else { ka },
                abs(n1) == if n1 < 0 { -n1 } else { n1 },
        ;
        lemma_exact_div(n1, g as int, kn);
        lemma_exact_div(d1, g as int, kb);
        assert(kb >= 1) by (nonlinear_arith)
            requires
                d1 == g * kb,
                d1 > 0,
                g > 0,
        ;
        assert(kn * d1 == n1 * kb) by (nonlinear_arith)
            requires
                n1 == g * kn,
                d1 == g * kb,
        ;
    }
    let n2 = match numerator.checked_div(g) {
        Some(x) => x,
        None => return None,
    };
    let d2 = match denominator.checked_div(g) {
        Some(x) => x,
        None => return None,
    };
    proof {
        lemma_ratio_chain(n2 as int, d2 as int, n1, d1, n0 as int, d0 as int);
    }
    Some((n2, d2))
}

/// The decimal `n / d`, when `d` is a product of twos and fives and the values on the
/// way fit.
fn decimal_from_fraction(n: i128, d: i128) -> (r: Option<RepairNumber>)
    requires
        d >= 1,
    ensures
        r == finite_decimal(n as int, d as int),
        r matches Some(q) ==> q.mantissa * d == n * p10(q.scale as nat) && (q.scale == 0 || q.mantissa % 10 != 0),
{
    let ghost d2 = d as int;
    let mut denominator = d;
    let mut twos: u32 = 0;
    loop
        invariant
            denominator >= 1,
            denominator * ipow(2, twos as nat) == d2,
            d2 >= 1,
            d2 <= i128::MAX,
            strip_factor(d2, 2) == (strip_factor(denominator as int, 2).0, (strip_factor(denominator as int, 2).1 + twos) as nat),
        decreases denominator,
    {
        let even = match denominator.checked_rem(2) {
            Some(x) => x == 0,
            None => false,
        };
        if !even {
            break;
        }
        proof {
            lemma_ipow_positive(2, twos as nat);
            assert(ipow(2, (twos + 1) as nat) == 2 * ipow(2, twos as nat));
            assert((denominator / 2) * ipow(2, (twos + 1) as nat) == d2) by (nonlinear_arith)
                requires
                    denominator % 2 == 0,
                    denominator * ipow(2, twos as nat) == d2,
                    ipow(2, (twos + 1) as nat) == 2 * ipow(2, twos as nat),
            ;
            assert(ipow(2, (twos + 1) as nat) <= d2) by (nonlinear_arith)
                requires
                    (denominator / 2) * ipow(2, (twos + 1) as nat) == d2,
                    denominator / 2 >= 1,
                    ipow(2, (twos + 1) as nat) >= 1,
            ;
            lemma_ipow_positive(2, (twos + 1) as nat);
            lemma_p2_bound((twos + 1) as nat);
        }
        denominator = denominator / 2;
        twos = twos + 1;
    }
    let ghost d3 = denominator as int;
    let mut fives: u32 = 0;
    loop
        invariant
            denominator >= 1,
            denominator * ipow(5, fives as nat) == d3,
            d3 >= 1,
            d3 <= i128::MAX,
            strip_factor(d3, 5) == (strip_factor(denominator as int, 5).0, (strip_factor(denominator as int, 5).1 + fives) as nat),
        decreases denominator,
    {
        let divisible = match denominator.checked_rem(5) {
            Some(x) => x == 0,
            None => false,
        };
        if !divisible {
            break;
        }
        proof {
            lemma_ipow_positive(5, fives as nat);
            assert(ipow(5, (fives + 1) as nat) == 5 * ipow(5, fives as nat));
            assert((denominator / 5) * ipow(5, (fives + 1) as nat) == d3) by (nonlinear_arith)
                requires
                    denominator % 5 == 0,
                    denominator * ipow(5, fives as nat) == d3,
                    ipow(5, (fives + 1) as nat) == 5 * ipow(5, fives as nat),
            ;
            assert(ipow(5, (fives + 1) as nat) <= d3) by (nonlinear_arith)
                requires
                    (denominator / 5) * ipow(5, (fives + 1) as nat) == d3,
                    denominator / 5 >= 1,
                    ipow(5, (fives + 1) as nat) >= 1,
            ;
            lemma_ipow_positive(5, (fives + 1) as nat);
            lemma_p5_above_p2((fives + 1) as nat);
            lemma_p2_bound((fives + 1) as nat);
        }
        denominator = denominator / 5;
        fives = fives + 1;
    }
    if denominator != 1 {
        return None;
    }
    let scale = if twos >= fives { twos } else { fives };
    let scale_up = match checked_pow10(scale) {
        Some(x) => x,
        None => return None,
    };
    let m0 = match n.checked_mul(scale_up) {
        Some(x) => x,
        None => return None,
    };
    let divisor = match repair_divisor_scale(twos, fives) {
        Some(x) => x,
        None => return None,
    };
    let ghost t2 = ipow(2, twos as nat);
    let ghost f5 = ipow(5, fives as nat);
    proof {
        lemma_p10_splits(scale as nat);
        lemma_ipow_adds(2, twos as nat, (scale - twos) as nat);
        lemma_ipow_adds(5, fives as nat, (scale - fives) as nat);
        let x2 = ipow(2, (scale - twos) as nat);
        let x5 = ipow(5, (scale - fives) as nat);
        assert(d2 == t2 * f5) by (nonlinear_arith)
            requires
                d2 == d3 * t2,
                d3 == 1 * f5,
        ;
        assert(m0 == divisor * (n * x2 * x5)) by (nonlinear_arith)
            requires
                m0 == n * scale_up,
                scale_up == ipow(2, scale as nat) * ipow(5, scale as nat),
                ipow(2, scale as nat) == t2 * x2,
                ipow(5, scale as nat) == f5 * x5,
                divisor == t2 * f5,
        ;
        lemma_ipow_positive(2, twos as nat);
        lemma_ipow_positive(5, fives as nat);
        lemma_exact_div(m0 as int, divisor as int, n * x2 * x5);
    }
    let mantissa = match m0.checked_div(divisor) {
        Some(x) => x,
        None => return None,
    };
    let q = RepairNumber::from_raw(mantissa, scale);
    proof {
        lemma_strip_zeros(mantissa as int, scale as nat);
        lemma_strip_zeros_normal(mantissa as int, scale as nat);
        lemma_p10_positive(scale as nat);
        let ps = p10(scale as nat);
        let pq = p10(q.scale as nat);
        assert(mantissa * d2 == n * ps) by (nonlinear_arith)
            requires
                m0 == divisor * mantissa,
                m0 == n * scale_up,
                scale_up == ps,
                divisor == d2,
        ;
        assert(q.mantissa * ps == mantissa * pq);
        lemma_ratio_chain(q.mantissa as int, pq, mantissa as int, ps, n as int, d2);
    }
    Some(q)
}

impl RepairNumber {
    /// The exact quotient, with trailing zeros dropped, when it is a finite decimal and
    /// every value on the way fits.
    pub fn div(self, other: RepairNumber) -> (r: Option<RepairNumber>)
        ensures
            r == decimal_quotient(self, other),
            r matches Some(q) ==> exact_quotient(self, other, q) && (q.scale == 0 || q.mantissa % 10 != 0),
    {
        let (n, d) = match reduced_quotient_fraction(self, other) {
            Some(f) => f,
            None => return None,
        };
        let r = decimal_from_fraction(n, d);
        proof {
            match r {
                Some(q) => {
                    let pq = p10(q.scale as nat);
                    let d0 = other.mantissa * p10(self.scale as nat);
                    let n0 = self.mantissa * p10(other.scale as nat);
                    lemma_ratio_chain(q.mantissa as int, pq, n as int, d as int, n0, d0);
                    assert(q.mantissa * other.mantissa * p10(self.scale as nat) == q.mantissa * d0) by (nonlinear_arith)
                        requires
                            d0 == other.mantissa * p10(self.scale as nat),
                    ;
                    assert(self.mantissa * p10(other.scale as nat) * pq == n0 * pq);
                },
                None => {},
            }
        }
        r
    }
}

/// Equal ratios chain: `p/q == r/s` and `r/s == t/u` give `p/q == t/u`.
proof fn lemma_ratio_chain(p: int, q: int, r: int, s: int, t: int, u: int)
    requires
        p * s == r * q,
        r * u == t * s,
        s != 0,
    ensures
        p * u == t * q,
{
    assert(p * u * s == t * q * s) by (nonlinear_arith)
        requires
            p * s == r * q,
            r * u == t * s,
    ;
    assert(p * u == t * q) by (nonlinear_arith)
        requires
            p * u * s == t * q * s,
            s != 0,
    ;
}

/// A stripped decimal has no trailing zero in its mantissa unless its scale is zero.
pub proof fn lemma_strip_zeros_normal(m: int, s: nat)
    ensures
        strip_zeros(m, s).1 == 0 || strip_zeros(m, s).0 % 10 != 0,
    decreases s,
{
    if s > 0 && m % 10 == 0 {
        lemma_strip_zeros_normal(m / 10, (s - 1) as nat);
    }
}

} // verus!
