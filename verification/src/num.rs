//! Binary floating-point data, held by bit pattern.
//!
//! Prices, quantities and notionals travel through the library as IEEE 754 binary64 bit
//! patterns. Ordering them is integer work and is done (and proved) here. Arithmetic on them is
//! supplied by the caller as a function from an [`Arith`] request to its answer; a function that
//! needs arithmetic says in its contract what it returns for every such function.

use vstd::arithmetic::power2::{
    lemma2_to64, lemma2_to64_rest, lemma_pow2_adds, lemma_pow2_pos, lemma_pow2_unfold, pow2,
};
use vstd::prelude::*;

verus! {

/// A binary64 datum. `==` compares bit patterns; [`Binary64::equals`] compares numbers.
#[derive(Clone, Copy, Debug, PartialEq, Eq, Structural)]
pub struct Binary64 {
    pub bits: u64,
}

/// The bit pattern of positive infinity; anything of larger magnitude is not a number.
pub const INFINITY_BITS: u64 = 0x7ff0_0000_0000_0000;

/// The weight of the sign bit.
pub const SIGN_BIT: u64 = 0x8000_0000_0000_0000;

/// How many fractions there are between two powers of two.
pub const FRACTIONS: u64 = 0x0010_0000_0000_0000;

/// The number `0`.
#[verifier::allow_in_spec]
pub fn zero() -> Binary64
    returns
        (Binary64 { bits: 0 }),
{
    Binary64 { bits: 0 }
}

/// The number `-0`, from which a sum of floats starts.
#[verifier::allow_in_spec]
pub fn negative_zero() -> Binary64
    returns
        (Binary64 { bits: 0x8000_0000_0000_0000 }),
{
    Binary64 { bits: 0x8000_0000_0000_0000 }
}

/// The number `1`.
#[verifier::allow_in_spec]
pub fn one() -> Binary64
    returns
        (Binary64 { bits: 0x3ff0_0000_0000_0000 }),
{
    Binary64 { bits: 0x3ff0_0000_0000_0000 }
}

/// The number `100`.
#[verifier::allow_in_spec]
pub fn hundred() -> Binary64
    returns
        (Binary64 { bits: 0x4059_0000_0000_0000 }),
{
    Binary64 { bits: 0x4059_0000_0000_0000 }
}

/// The number of a magnitude, counted in the smallest number above zero: a fraction alone, or a
/// fraction above one times a power of two.
pub open spec fn scaled(magnitude: int) -> int {
    let exponent = magnitude / FRACTIONS as int;
    let fraction = magnitude % FRACTIONS as int;
    if exponent == 0 {
        fraction
    } else {
        (FRACTIONS + fraction) * pow2((exponent - 1) as nat)
    }
}

impl DeepView for Binary64 {
    type V = Binary64;

    open spec fn deep_view(&self) -> Binary64 {
        *self
    }
}

impl Binary64 {
    /// The datum without its sign, as an integer that grows with the number's magnitude.
    pub open spec fn magnitude(self) -> int {
        if self.bits >= SIGN_BIT {
            self.bits - SIGN_BIT
        } else {
            self.bits as int
        }
    }

    /// Whether the datum is not a number.
    pub open spec fn nan(self) -> bool {
        self.magnitude() > INFINITY_BITS
    }

    /// Whether the datum is a number of finite magnitude.
    pub open spec fn finite(self) -> bool {
        self.magnitude() < INFINITY_BITS
    }

    /// An integer that orders numbers as their values do; both zeros have rank 0.
    pub open spec fn rank(self) -> int {
        if self.bits >= SIGN_BIT {
            -self.magnitude()
        } else {
            self.magnitude()
        }
    }

    /// The number itself, counted in the smallest number above zero.
    pub open spec fn value(self) -> int {
        if self.bits >= SIGN_BIT {
            -scaled(self.magnitude())
        } else {
            scaled(self.magnitude())
        }
    }

    /// `self < other`, false where either is not a number.
    pub open spec fn lt(self, other: Binary64) -> bool {
        !self.nan() && !other.nan() && self.rank() < other.rank()
    }

    /// `self <= other`, false where either is not a number.
    pub open spec fn le(self, other: Binary64) -> bool {
        !self.nan() && !other.nan() && self.rank() <= other.rank()
    }

    /// `self == other` as numbers, false where either is not a number.
    pub open spec fn eq_num(self, other: Binary64) -> bool {
        !self.nan() && !other.nan() && self.rank() == other.rank()
    }

    /// Whether the number is greater than zero.
    pub open spec fn positive(self) -> bool {
        zero().lt(self)
    }

    /// The smaller number; the other one where exactly one is not a number.
    pub open spec fn min_num(self, other: Binary64) -> Binary64 {
        if self.nan() || other.lt(self) {
            other
        } else {
            self
        }
    }

    pub fn is_nan(self) -> (r: bool)
        ensures
            r == self.nan(),
    {
        if self.bits >= SIGN_BIT {
            self.bits - SIGN_BIT > INFINITY_BITS
        } else {
            self.bits > INFINITY_BITS
        }
    }

    pub fn is_finite(self) -> (r: bool)
        ensures
            r == self.finite(),
    {
        if self.bits >= SIGN_BIT {
            self.bits - SIGN_BIT < INFINITY_BITS
        } else {
            self.bits < INFINITY_BITS
        }
    }

    /// `self < other`.
    pub fn less(self, other: Binary64) -> (r: bool)
        ensures
            r == self.lt(other),
    {
        if self.is_nan() || other.is_nan() {
            return false;
        }
        if self.bits >= SIGN_BIT {
            if other.bits >= SIGN_BIT {
                other.bits < self.bits
            } else {
                self.bits != SIGN_BIT || other.bits != 0
            }
        } else {
            other.bits < SIGN_BIT && self.bits < other.bits
        }
    }

    /// `self <= other`.
    pub fn at_most(self, other: Binary64) -> (r: bool)
        ensures
            r == self.le(other),
    {
        !self.is_nan() && !other.is_nan() && !other.less(self)
    }

    /// `self == other` as numbers.
    pub fn equals(self, other: Binary64) -> (r: bool)
        ensures
            r == self.eq_num(other),
    {
        self.at_most(other) && other.at_most(self)
    }

    /// `self > 0`.
    pub fn is_positive(self) -> (r: bool)
        ensures
            r == self.positive(),
    {
        zero().less(self)
    }

    /// The smaller of two numbers; where one is not a number, the other one.
    pub fn min(self, other: Binary64) -> (r: Binary64)
        ensures
            r == self.min_num(other),
    {
        if self.is_nan() || other.less(self) {
            other
        } else {
            self
        }
    }
}

/// A request for one floating-point operation.
#[derive(Clone, Copy, Debug)]
pub enum Arith {
    Add(Binary64, Binary64),
    Sub(Binary64, Binary64),
    Mul(Binary64, Binary64),
    Div(Binary64, Binary64),
    Floor(Binary64),
    Ceil(Binary64),
    /// Ten to an integer power.
    PowerOfTen(i32),
}

/// Whether `arith` answers every request.
pub open spec fn answers_all<F: Fn(Arith) -> Binary64>(arith: F) -> bool {
    forall|op: Arith| #[trigger] call_requires(arith, (op,))
}

/// Whether `arith` answers every request as `model` does.
pub open spec fn computes<F: Fn(Arith) -> Binary64>(
    arith: F,
    model: spec_fn(Arith) -> Binary64,
) -> bool {
    forall|op: Arith, r: Binary64| #[trigger]
        call_ensures(arith, (op,), r) ==> r == model(op)
}

/// Whether `show` renders every number.
pub open spec fn shows_all<F: Fn(Binary64) -> String>(show: F) -> bool {
    forall|x: Binary64| #[trigger] call_requires(show, (x,))
}

/// Whether `show` renders every number as `model` does.
pub open spec fn renders<F: Fn(Binary64) -> String>(
    show: F,
    model: spec_fn(Binary64) -> Seq<char>,
) -> bool {
    forall|x: Binary64, r: String| #[trigger] call_ensures(show, (x,), r) ==> r@ == model(x)
}

/// Whether `parse` accepts every text as an argument.
pub open spec fn parses_all<F: Fn(&str) -> Option<Binary64>>(parse: F) -> bool {
    forall|s: &str| #[trigger] call_requires(parse, (s,))
}

/// Whether `parse` reads every text as `model` does.
pub open spec fn reads<F: Fn(&str) -> Option<Binary64>>(
    parse: F,
    model: spec_fn(Seq<char>) -> Option<Binary64>,
) -> bool {
    forall|s: &str, r: Option<Binary64>| #[trigger]
        call_ensures(parse, (s,), r) ==> r == model(s@)
}

/// Of two numbers exactly one of "less", "equal" and "greater" holds, and "at most" is "less or
/// equal".
pub proof fn order_is_total(a: Binary64, b: Binary64)
    requires
        !a.nan(),
        !b.nan(),
    ensures
        a.lt(b) || a.eq_num(b) || b.lt(a),
        !(a.lt(b) && b.lt(a)),
        !(a.lt(b) && a.eq_num(b)),
        a.le(b) <==> a.lt(b) || a.eq_num(b),
{
}

/// "Less" is transitive, also through numbers that are equal.
pub proof fn order_is_transitive(a: Binary64, b: Binary64, c: Binary64)
    requires
        a.le(b),
        b.le(c),
    ensures
        a.le(c),
        a.lt(b) || b.lt(c) ==> a.lt(c),
{
}

proof fn lemma_pow2_grows(a: nat, b: nat)
    requires
        a <= b,
    ensures
        0 < pow2(a) <= pow2(b),
    decreases b,
{
    lemma_pow2_pos(a);
    lemma_pow2_pos(b);
    if a < b {
        lemma_pow2_grows(a, (b - 1) as nat);
        lemma_pow2_unfold(b);
    }
}

/// A larger magnitude is a larger number.
proof fn lemma_scaled_grows(a: int, b: int)
    requires
        0 <= a < b,
    ensures
        0 <= scaled(a) < scaled(b),
{
    let size = FRACTIONS as int;
    let x = a / size;
    let y = b / size;
    let f = a % size;
    let g = b % size;
    assert(x <= y && a == x * size + f && b == y * size + g && 0 <= f < size && 0 <= g < size)
        by (nonlinear_arith)
        requires
            0 <= a < b,
            size == 0x0010_0000_0000_0000,
            x == a / size,
            y == b / size,
            f == a % size,
            g == b % size,
    ;
    if x == y {
        assert(f < g);
        if x > 0 {
            let p = pow2((x - 1) as nat) as int;
            lemma_pow2_pos((x - 1) as nat);
            assert(0 <= (size + f) * p < (size + g) * p) by (nonlinear_arith)
                requires
                    0 <= f < g,
                    size > 0,
                    p > 0,
            ;
        }
    } else {
        let q = pow2((y - 1) as nat) as int;
        let r = pow2(x as nat) as int;
        lemma_pow2_grows(x as nat, (y - 1) as nat);
        assert(0 <= scaled(a) < size * r) by {
            if x == 0 {
                assert(r == 1) by {
                    lemma2_to64();
                }
            } else {
                let p = pow2((x - 1) as nat) as int;
                lemma_pow2_pos((x - 1) as nat);
                lemma_pow2_unfold(x as nat);
                assert(0 <= (size + f) * p < size * (2 * p)) by (nonlinear_arith)
                    requires
                        0 <= f < size,
                        p > 0,
                ;
            }
        }
        assert(size * r <= (size + g) * q) by (nonlinear_arith)
            requires
                0 <= g,
                size > 0,
                0 < r <= q,
        ;
    }
}

/// The order of numbers is that of their values.
pub proof fn values_are_ordered(a: Binary64, b: Binary64)
    requires
        !a.nan(),
        !b.nan(),
    ensures
        a.le(b) <==> a.value() <= b.value(),
        a.lt(b) <==> a.value() < b.value(),
        a.positive() <==> a.value() > 0,
        zero().value() == 0,
{
    let x = a.magnitude();
    let y = b.magnitude();
    assert(scaled(0) == 0);
    if 0 < x {
        lemma_scaled_grows(0, x);
    }
    if 0 < y {
        lemma_scaled_grows(0, y);
    }
    if x < y {
        lemma_scaled_grows(x, y);
    } else if y < x {
        lemma_scaled_grows(y, x);
    }
}

/// How far two integers are apart.
pub open spec fn distance(a: int, b: int) -> int {
    if a <= b {
        b - a
    } else {
        a - b
    }
}

/// Whether `r` is what `exact` is rounded to: no number is nearer, and it is infinite only where
/// `exact` is beyond all numbers of finite magnitude.
pub open spec fn is_rounded(r: Binary64, exact: int) -> bool {
    &&& !r.nan()
    &&& r.finite() ==> forall|c: Binary64| #[trigger]
        c.finite() ==> distance(r.value(), exact) <= distance(c.value(), exact)
    &&& !r.finite() && r.positive() ==> forall|c: Binary64| #[trigger]
        c.finite() ==> c.value() < exact
    &&& !r.finite() && !r.positive() ==> forall|c: Binary64| #[trigger]
        c.finite() ==> exact < c.value()
}

/// Whether sums and differences are rounded to a nearest number, as IEEE 754 asks, and adding leaves
/// an infinite number as it is.
pub open spec fn rounds_sums(model: spec_fn(Arith) -> Binary64) -> bool {
    &&& forall|a: Binary64, b: Binary64|
        a.finite() && b.finite() ==> is_rounded(
            #[trigger] model(Arith::Add(a, b)),
            a.value() + b.value(),
        )
    &&& forall|a: Binary64, b: Binary64|
        a.finite() && b.finite() ==> is_rounded(
            #[trigger] model(Arith::Sub(a, b)),
            a.value() - b.value(),
        )
    &&& forall|a: Binary64, b: Binary64|
        !a.nan() && !a.finite() && b.finite() ==> #[trigger] model(Arith::Add(a, b)) == a
}

/// What lies between two numbers of finite magnitude is rounded to a number between them, and what
/// is a number is rounded to itself.
pub proof fn rounding_stays_between(r: Binary64, exact: int, low: Binary64, high: Binary64)
    requires
        is_rounded(r, exact),
        low.finite(),
        high.finite(),
        low.value() <= exact <= high.value(),
    ensures
        r.finite(),
        low.value() <= r.value() <= high.value(),
        exact == low.value() || exact == high.value() ==> r.value() == exact,
{
    assert(low.finite() && high.finite());
}

/// Of numbers without a sign the one with the larger bits is larger, of numbers with a sign the smaller;
/// a number with a sign is smaller than one without, unless both are zero. What is not a number compares
/// with nothing.
pub proof fn bits_decide_the_order(a: Binary64, b: Binary64)
    ensures
        a.bits <= 0x7ff0_0000_0000_0000 && b.bits <= 0x7ff0_0000_0000_0000 ==> (a.lt(b) <==> a.bits
            < b.bits) && (a.le(b) <==> a.bits <= b.bits) && (a.eq_num(b) <==> a.bits == b.bits),
        0x8000_0000_0000_0000 <= a.bits <= 0xfff0_0000_0000_0000 && 0x8000_0000_0000_0000 <= b.bits
            <= 0xfff0_0000_0000_0000 ==> (a.lt(b) <==> b.bits < a.bits) && (a.le(b) <==> b.bits
            <= a.bits) && (a.eq_num(b) <==> a.bits == b.bits),
        0x8000_0000_0000_0000 <= a.bits <= 0xfff0_0000_0000_0000 && b.bits <= 0x7ff0_0000_0000_0000
            ==> a.le(b) && !b.lt(a) && (a.eq_num(b) <==> a.bits == 0x8000_0000_0000_0000 && b.bits
            == 0) && (a.lt(b) <==> !a.eq_num(b)),
        0x7ff0_0000_0000_0000 < a.bits < 0x8000_0000_0000_0000 || 0xfff0_0000_0000_0000 < a.bits
            ==> a.nan() && !a.finite() && !a.lt(b) && !b.lt(a) && !a.le(b) && !b.le(a) && !a.eq_num(
            b,
        ) && !b.eq_num(a),
        a.finite() <==> a.bits < 0x7ff0_0000_0000_0000 || 0x8000_0000_0000_0000 <= a.bits
            < 0xfff0_0000_0000_0000,
        a.positive() <==> 0 < a.bits <= 0x7ff0_0000_0000_0000,
{
}

/// The smaller of two numbers is one of them and not above the other; beside what is not a number, it is
/// the number.
pub proof fn the_smaller_is_one_of_both(a: Binary64, b: Binary64)
    ensures
        a.min_num(b) == a || a.min_num(b) == b,
        !a.nan() && !b.nan() ==> a.min_num(b).le(a) && a.min_num(b).le(b),
        a.nan() ==> a.min_num(b) == b,
        !a.nan() && b.nan() ==> a.min_num(b) == a,
        a.eq_num(b) ==> a.min_num(b) == a,
{
}

/// The constants are the numbers that they are named after: both zeros are zero, and a hundred is a
/// hundred times one, which is the number of smallest numbers in one.
pub proof fn constants_are_what_they_are_named_after()
    ensures
        zero().value() == 0,
        negative_zero().value() == 0,
        zero().bits == 0,
        negative_zero().bits != zero().bits,
        one().value() == pow2(1074),
        hundred().value() == 100 * one().value(),
{
    lemma_scaled_zero();
    assert(0x3ff0_0000_0000_0000int / 0x0010_0000_0000_0000int == 1023);
    assert(0x3ff0_0000_0000_0000int % 0x0010_0000_0000_0000int == 0);
    assert(0x4059_0000_0000_0000int / 0x0010_0000_0000_0000int == 1029);
    assert(0x4059_0000_0000_0000int % 0x0010_0000_0000_0000int == 0x0009_0000_0000_0000int);
    let unit = pow2(1022) as int;
    lemma_pow2_adds(52, 1022);
    lemma_pow2_adds(6, 1022);
    lemma2_to64();
    assert(one().value() == 0x0010_0000_0000_0000 * unit);
    assert(hundred().value() == 0x0019_0000_0000_0000 * pow2(1028));
    assert(pow2(1028) == 64 * unit);
    assert(0x0019_0000_0000_0000 * (64 * unit) == 100 * (0x0010_0000_0000_0000 * unit))
        by (nonlinear_arith);
    lemma2_to64_rest();
    assert(pow2(52) == 0x0010_0000_0000_0000);
}

proof fn lemma_scaled_zero()
    ensures
        scaled(0) == 0,
{
    assert(0int / 0x0010_0000_0000_0000int == 0);
    assert(0int % 0x0010_0000_0000_0000int == 0);
}

} // verus!
