//! IEEE-754 binary64 numbers, held by their bit patterns, with the arithmetic of the standard's
//! default rounding (to nearest, ties to even).
//!
//! Every finite number is a whole number of units of `2^-1074`, so what an operation returns is
//! stated over integers: the exact result, as a ratio of units, rounded by
//! [`rounded`](crate::rounding::rounded).

use crate::rounding::lemma_binade;
use crate::rounding::lemma_pow2_monotone;
use crate::rounding::lemma_pow2_zero;
use crate::rounding::power_of_two;
use crate::rounding::represents;
use crate::rounding::round_scaled;
use crate::rounding::rounded;
use crate::rounding::BINADE;
use crate::rounding::INFINITY_CODE;
use vstd::arithmetic::power2::lemma_pow2_adds;
use vstd::arithmetic::power2::lemma_pow2_pos;
use vstd::arithmetic::power2::lemma_pow2_unfold;
use vstd::arithmetic::power2::pow2;
use vstd::prelude::*;

verus! {

/// The sign bit of a bit pattern.
pub const SIGN_BIT: u64 = 0x8000_0000_0000_0000;

/// A binary64 number. Two values are equal (`==`) when their bit patterns are; numbers are
/// compared with [`Binary64::lt`] and its kin.
#[derive(Clone, Copy, Debug, PartialEq, Eq, Structural)]
pub struct Binary64 {
    pub bits: u64,
}

/// The significand of a magnitude code below infinity.
pub open spec fn significand(code: u64) -> nat {
    if code < BINADE {
        code as nat
    } else {
        (BINADE + code % BINADE) as nat
    }
}

/// The exponent that goes with [`significand`], counted from the unit.
pub open spec fn exponent(code: u64) -> nat {
    if code < BINADE {
        0
    } else {
        (code / BINADE - 1) as nat
    }
}

/// The number of units that a magnitude code below infinity stands for.
pub open spec fn magnitude(code: u64) -> nat {
    significand(code) * pow2(exponent(code))
}

/// The number with the given sign and magnitude code.
pub open spec fn signed(negative: bool, code: u64) -> Binary64 {
    Binary64 {
        bits: if negative {
            (SIGN_BIT + code) as u64
        } else {
            code
        },
    }
}

/// The quiet NaN that operations without a result return.
pub open spec fn nan() -> Binary64 {
    Binary64 { bits: 0x7ff8_0000_0000_0000 }
}

/// The number of units in one.
pub open spec fn one_in_units() -> nat {
    pow2(1074)
}

pub open spec fn absolute(x: int) -> nat {
    if x < 0 {
        (-x) as nat
    } else {
        x as nat
    }
}

/// The rounding of `n / d` units with the given sign.
pub open spec fn from_ratio(negative: bool, n: nat, d: nat) -> Binary64 {
    signed(negative, rounded(n, d))
}

/// The number with the given sign and magnitude code.
pub fn make_signed(negative: bool, code: u64) -> (r: Binary64)
    requires
        code < SIGN_BIT,
    ensures
        r == signed(negative, code),
{
    if negative {
        Binary64 { bits: SIGN_BIT + code }
    } else {
        Binary64 { bits: code }
    }
}

fn make_nan() -> (r: Binary64)
    ensures
        r == nan(),
{
    Binary64 { bits: 0x7ff8_0000_0000_0000 }
}

/// The significand and the exponent of a magnitude code below infinity.
fn parts(code: u64) -> (r: (u64, i32))
    requires
        code < INFINITY_CODE,
    ensures
        r.0 == significand(code),
        r.1 == exponent(code),
        r.0 < 2 * BINADE,
        0 <= r.1 <= 2045,
        r.1 > 0 ==> r.0 >= BINADE,
{
    if code < BINADE {
        (code, 0)
    } else {
        (BINADE + code % BINADE, (code / BINADE - 1) as i32)
    }
}

pub open spec fn spec_number(bits: u64) -> Binary64 {
    Binary64 { bits }
}

/// The number with the given bit pattern.
#[verifier::when_used_as_spec(spec_number)]
pub fn number(bits: u64) -> (r: Binary64)
    ensures
        r == number(bits),
{
    Binary64 { bits }
}

impl Binary64 {
    pub open spec fn code(self) -> u64 {
        self.bits % SIGN_BIT
    }

    pub open spec fn negative(self) -> bool {
        self.bits >= SIGN_BIT
    }

    pub open spec fn spec_is_nan(self) -> bool {
        self.code() > INFINITY_CODE
    }

    pub open spec fn spec_is_infinite(self) -> bool {
        self.code() == INFINITY_CODE
    }

    pub open spec fn spec_is_finite(self) -> bool {
        self.code() < INFINITY_CODE
    }

    /// The value of a finite number, in units.
    pub open spec fn units(self) -> int {
        if self.negative() {
            -(magnitude(self.code()) as int)
        } else {
            magnitude(self.code()) as int
        }
    }

    /// Where a number other than NaN stands in the order of numbers.
    pub open spec fn rank(self) -> int {
        if self.negative() {
            -(self.code() as int)
        } else {
            self.code() as int
        }
    }

    /// Where a bit pattern stands in the total order of all patterns.
    pub open spec fn total_rank(self) -> int {
        if self.negative() {
            -(self.code() as int) - 1
        } else {
            self.code() as int
        }
    }

    fn magnitude_code(self) -> (code: u64)
        ensures
            code == self.code(),
            code < SIGN_BIT,
    {
        self.bits % SIGN_BIT
    }

    pub fn is_negative(self) -> (r: bool)
        ensures
            r == self.negative(),
    {
        self.bits >= SIGN_BIT
    }

    #[verifier::when_used_as_spec(spec_is_nan)]
    pub fn is_nan(self) -> (r: bool)
        ensures
            r == self.is_nan(),
    {
        self.magnitude_code() > INFINITY_CODE
    }

    #[verifier::when_used_as_spec(spec_is_infinite)]
    pub fn is_infinite(self) -> (r: bool)
        ensures
            r == self.is_infinite(),
    {
        self.magnitude_code() == INFINITY_CODE
    }

    #[verifier::when_used_as_spec(spec_is_finite)]
    pub fn is_finite(self) -> (r: bool)
        ensures
            r == self.is_finite(),
    {
        self.magnitude_code() < INFINITY_CODE
    }

    pub open spec fn spec_lt(self, other: Binary64) -> bool {
        !self.is_nan() && !other.is_nan() && self.rank() < other.rank()
    }

    pub open spec fn spec_le(self, other: Binary64) -> bool {
        !self.is_nan() && !other.is_nan() && self.rank() <= other.rank()
    }

    pub open spec fn spec_same(self, other: Binary64) -> bool {
        !self.is_nan() && !other.is_nan() && self.rank() == other.rank()
    }

    fn signed_code(self) -> (r: i64)
        ensures
            r == self.rank(),
    {
        let code: i64 = self.magnitude_code() as i64;
        if self.is_negative() {
            -code
        } else {
            code
        }
    }

    /// `self < other`; false where one of them is NaN.
    #[verifier::when_used_as_spec(spec_lt)]
    pub fn lt(self, other: Binary64) -> (r: bool)
        ensures
            r == self.lt(other),
    {
        !self.is_nan() && !other.is_nan() && self.signed_code() < other.signed_code()
    }

    /// `self <= other`; false where one of them is NaN.
    #[verifier::when_used_as_spec(spec_le)]
    pub fn le(self, other: Binary64) -> (r: bool)
        ensures
            r == self.le(other),
    {
        !self.is_nan() && !other.is_nan() && self.signed_code() <= other.signed_code()
    }

    pub open spec fn spec_gt(self, other: Binary64) -> bool {
        other.lt(self)
    }

    pub open spec fn spec_ge(self, other: Binary64) -> bool {
        other.le(self)
    }

    /// `self > other`; false where one of them is NaN.
    #[verifier::when_used_as_spec(spec_gt)]
    pub fn gt(self, other: Binary64) -> (r: bool)
        ensures
            r == self.gt(other),
    {
        other.lt(self)
    }

    /// `self >= other`; false where one of them is NaN.
    #[verifier::when_used_as_spec(spec_ge)]
    pub fn ge(self, other: Binary64) -> (r: bool)
        ensures
            r == self.ge(other),
    {
        other.le(self)
    }

    /// Whether the two are the same number; zero has two patterns, and NaN is no number.
    #[verifier::when_used_as_spec(spec_same)]
    pub fn same(self, other: Binary64) -> (r: bool)
        ensures
            r == self.same(other),
    {
        !self.is_nan() && !other.is_nan() && self.signed_code() == other.signed_code()
    }

    /// Whether `self` comes before `other` in the total order of all patterns.
    pub fn total_lt(self, other: Binary64) -> (r: bool)
        ensures
            r == (self.total_rank() < other.total_rank()),
    {
        if self.is_negative() {
            if other.is_negative() {
                self.magnitude_code() > other.magnitude_code()
            } else {
                true
            }
        } else {
            !other.is_negative() && self.magnitude_code() < other.magnitude_code()
        }
    }

    pub open spec fn spec_negate(self) -> Binary64 {
        signed(!self.negative(), self.code())
    }

    #[verifier::when_used_as_spec(spec_negate)]
    pub fn negate(self) -> (r: Binary64)
        ensures
            r == self.negate(),
    {
        if self.bits >= SIGN_BIT {
            Binary64 { bits: self.bits - SIGN_BIT }
        } else {
            Binary64 { bits: self.bits + SIGN_BIT }
        }
    }

    pub open spec fn spec_abs(self) -> Binary64 {
        signed(false, self.code())
    }

    #[verifier::when_used_as_spec(spec_abs)]
    pub fn abs(self) -> (r: Binary64)
        ensures
            r == self.abs(),
    {
        Binary64 { bits: self.bits % SIGN_BIT }
    }

    pub open spec fn spec_max(self, other: Binary64) -> Binary64 {
        if self.is_nan() || self.lt(other) {
            other
        } else {
            self
        }
    }

    /// The larger of the two; where one is NaN, the other.
    #[verifier::when_used_as_spec(spec_max)]
    pub fn max(self, other: Binary64) -> (r: Binary64)
        ensures
            r == self.max(other),
    {
        if self.is_nan() || self.lt(other) {
            other
        } else {
            self
        }
    }

    pub open spec fn spec_min(self, other: Binary64) -> Binary64 {
        if self.is_nan() || other.lt(self) {
            other
        } else {
            self
        }
    }

    /// The smaller of the two; where one is NaN, the other.
    #[verifier::when_used_as_spec(spec_min)]
    pub fn min(self, other: Binary64) -> (r: Binary64)
        ensures
            r == self.min(other),
    {
        if self.is_nan() || other.lt(self) {
            other
        } else {
            self
        }
    }

    pub open spec fn spec_clamp(self, low: Binary64, high: Binary64) -> Binary64 {
        if self.lt(low) {
            low
        } else if high.lt(self) {
            high
        } else {
            self
        }
    }

    /// The nearest number from `low` to `high`; NaN stays.
    #[verifier::when_used_as_spec(spec_clamp)]
    pub fn clamp(self, low: Binary64, high: Binary64) -> (r: Binary64)
        ensures
            r == self.clamp(low, high),
    {
        if self.lt(low) {
            low
        } else if high.lt(self) {
            high
        } else {
            self
        }
    }

    #[verifier::opaque]
    pub open spec fn spec_plus(self, other: Binary64) -> Binary64 {
        if self.is_nan() || other.is_nan() {
            nan()
        } else if self.is_infinite() {
            if other.is_infinite() && self.negative() != other.negative() {
                nan()
            } else {
                self
            }
        } else if other.is_infinite() {
            other
        } else {
            let sum = self.units() + other.units();
            if sum == 0 {
                signed(self.negative() && other.negative(), 0)
            } else {
                from_ratio(sum < 0, absolute(sum), 1)
            }
        }
    }

    /// `self + other`.
    #[verifier::when_used_as_spec(spec_plus)]
    pub fn plus(self, other: Binary64) -> (r: Binary64)
        ensures
            r == self.plus(other),
    {
        proof {
            reveal(Binary64::spec_plus);
        }
        if self.is_nan() || other.is_nan() {
            return make_nan();
        }
        if self.is_infinite() {
            if other.is_infinite() && self.is_negative() != other.is_negative() {
                return make_nan();
            }
            return self;
        }
        if other.is_infinite() {
            return other;
        }
        if exponent_of(self) >= exponent_of(other) {
            add_ordered(self, other)
        } else {
            add_ordered(other, self)
        }
    }

    pub open spec fn spec_minus(self, other: Binary64) -> Binary64 {
        self.plus(other.negate())
    }

    /// `self - other`.
    #[verifier::when_used_as_spec(spec_minus)]
    pub fn minus(self, other: Binary64) -> (r: Binary64)
        ensures
            r == self.minus(other),
    {
        self.plus(other.negate())
    }

    #[verifier::opaque]
    pub open spec fn spec_times(self, other: Binary64) -> Binary64 {
        let negative = self.negative() != other.negative();
        if self.is_nan() || other.is_nan() {
            nan()
        } else if self.is_infinite() || other.is_infinite() {
            if self.code() == 0 || other.code() == 0 {
                nan()
            } else {
                signed(negative, INFINITY_CODE)
            }
        } else {
            from_ratio(
                negative,
                magnitude(self.code()) * magnitude(other.code()),
                one_in_units(),
            )
        }
    }

    /// `self * other`.
    #[verifier::when_used_as_spec(spec_times)]
    pub fn times(self, other: Binary64) -> (r: Binary64)
        ensures
            r == self.times(other),
    {
        proof {
            reveal(Binary64::spec_times);
        }
        let negative = self.is_negative() != other.is_negative();
        let a: u64 = self.magnitude_code();
        let b: u64 = other.magnitude_code();
        if self.is_nan() || other.is_nan() {
            return make_nan();
        }
        if self.is_infinite() || other.is_infinite() {
            if a == 0 || b == 0 {
                return make_nan();
            }
            return make_signed(negative, INFINITY_CODE);
        }
        let (ma, ea) = parts(a);
        let (mb, eb) = parts(b);
        let ghost n: nat = magnitude(a) * magnitude(b);
        let ghost d: nat = one_in_units();
        if ma == 0 || mb == 0 {
            proof {
                assert(n == 0) by (nonlinear_arith)
                    requires
                        n == (ma * pow2(exponent(a))) * (mb * pow2(exponent(b))),
                        ma == 0 || mb == 0,
                ;
                lemma_pow2_pos(1074);
                lemma_rounded_zero(d);
            }
            return make_signed(negative, 0);
        }
        assert(0 < ma * mb < 0x400_0000_0000_0000_0000_0000_0000) by (nonlinear_arith)
            requires
                0 < ma < 0x20_0000_0000_0000,
                0 < mb < 0x20_0000_0000_0000,
        ;
        let m: u128 = (ma as u128) * (mb as u128);
        let e: i32 = ea + eb - 1074;
        proof {
            let pa = pow2(ea as nat);
            let pb = pow2(eb as nat);
            lemma_pow2_adds(ea as nat, eb as nat);
            let top = pow2((ea + eb) as nat);
            assert(n == m * top) by (nonlinear_arith)
                requires
                    n == (ma * pa) * (mb * pb),
                    m == ma * mb,
                    top == pa * pb,
            ;
            lemma_represents_product(m as nat, (ea + eb) as nat, 1074, n);
            lemma_127();
        }
        make_signed(negative, round_scaled(m, e, false, Ghost(n), Ghost(d)))
    }

    #[verifier::opaque]
    pub open spec fn spec_over(self, other: Binary64) -> Binary64 {
        let negative = self.negative() != other.negative();
        if self.is_nan() || other.is_nan() {
            nan()
        } else if self.is_infinite() {
            if other.is_infinite() {
                nan()
            } else {
                signed(negative, INFINITY_CODE)
            }
        } else if other.is_infinite() {
            signed(negative, 0)
        } else if other.code() == 0 {
            if self.code() == 0 {
                nan()
            } else {
                signed(negative, INFINITY_CODE)
            }
        } else {
            from_ratio(
                negative,
                magnitude(self.code()) * one_in_units(),
                magnitude(other.code()),
            )
        }
    }

    /// `self / other`.
    #[verifier::when_used_as_spec(spec_over)]
    pub fn over(self, other: Binary64) -> (r: Binary64)
        ensures
            r == self.over(other),
    {
        proof {
            reveal(Binary64::spec_over);
        }
        let negative = self.is_negative() != other.is_negative();
        let a: u64 = self.magnitude_code();
        let b: u64 = other.magnitude_code();
        if self.is_nan() || other.is_nan() {
            return make_nan();
        }
        if self.is_infinite() {
            if other.is_infinite() {
                return make_nan();
            }
            return make_signed(negative, INFINITY_CODE);
        }
        if other.is_infinite() {
            return make_signed(negative, 0);
        }
        if b == 0 {
            if a == 0 {
                return make_nan();
            }
            return make_signed(negative, INFINITY_CODE);
        }
        let (ma, ea) = parts(a);
        let (mb, eb) = parts(b);
        let ghost n: nat = magnitude(a) * one_in_units();
        let ghost d: nat = magnitude(b);
        proof {
            lemma_pow2_pos(exponent(b));
            assert(d > 0) by (nonlinear_arith)
                requires
                    d == mb * pow2(exponent(b)),
                    mb > 0,
                    pow2(exponent(b)) > 0,
            ;
        }
        if ma == 0 {
            proof {
                assert(n == 0) by (nonlinear_arith)
                    requires
                        n == (ma * pow2(exponent(a))) * one_in_units(),
                        ma == 0,
                ;
                lemma_rounded_zero(d);
            }
            return make_signed(negative, 0);
        }
        let (wide, shift) = normalize(ma);
        let x: u128 = (wide as u128) * 0x400_0000_0000_0000_0000;
        let m: u128 = x / (mb as u128);
        let sticky = x % (mb as u128) != 0;
        let e: i32 = ea - eb + 1000 - shift;
        proof {
            lemma_127();
            lemma_quotient(ma as nat, ea as nat, mb as nat, eb as nat, shift as nat, x as nat);
            let xi = x as int;
            let mi = m as int;
            let di = mb as int;
            assert(mi * di <= xi && xi < (mi + 1) * di && (xi == mi * di <==> !sticky)
                && mi >= 0x20_0000_0000_0000 && mi <= xi) by (nonlinear_arith)
                requires
                    xi >= 0x10_0000_0000_0000 * 0x400_0000_0000_0000_0000,
                    0 < di < 0x20_0000_0000_0000,
                    mi == xi / di,
                    sticky == (xi % di != 0),
            ;
        }
        make_signed(negative, round_scaled(m, e, sticky, Ghost(n), Ghost(d)))
    }

    #[verifier::opaque]
    pub open spec fn spec_from_integer(n: int) -> Binary64 {
        from_ratio(n < 0, absolute(n) * one_in_units(), 1)
    }

    /// The number nearest to `n`.
    pub fn from_u64(n: u64) -> (r: Binary64)
        ensures
            r == Self::spec_from_integer(n as int),
    {
        proof {
            reveal(Binary64::spec_from_integer);
        }
        make_signed(false, integer_code(n))
    }

    /// The number nearest to `n`.
    pub fn from_i64(n: i64) -> (r: Binary64)
        ensures
            r == Self::spec_from_integer(n as int),
    {
        proof {
            reveal(Binary64::spec_from_integer);
        }
        if n >= 0 {
            make_signed(false, integer_code(n as u64))
        } else if n == i64::MIN {
            make_signed(true, integer_code(0x8000_0000_0000_0000))
        } else {
            make_signed(true, integer_code((-n) as u64))
        }
    }

    /// The whole part of the absolute value of a finite number.
    pub open spec fn whole(self) -> nat {
        magnitude(self.code()) / one_in_units()
    }

    /// The rest of the absolute value of a finite number, in units.
    pub open spec fn rest(self) -> nat {
        magnitude(self.code()) % one_in_units()
    }

    /// `self` where it is no finite number; else its sign and the given whole number.
    pub open spec fn with_whole(self, whole: nat) -> Binary64 {
        if self.is_finite() {
            from_ratio(self.negative(), whole * one_in_units(), 1)
        } else {
            self
        }
    }

    #[verifier::opaque]
    pub open spec fn spec_floor(self) -> Binary64 {
        self.with_whole(
            if self.negative() && self.rest() != 0 {
                self.whole() + 1
            } else {
                self.whole()
            },
        )
    }

    #[verifier::opaque]
    pub open spec fn spec_ceil(self) -> Binary64 {
        self.with_whole(
            if !self.negative() && self.rest() != 0 {
                self.whole() + 1
            } else {
                self.whole()
            },
        )
    }

    #[verifier::opaque]
    pub open spec fn spec_round(self) -> Binary64 {
        self.with_whole(
            if 2 * self.rest() >= one_in_units() {
                self.whole() + 1
            } else {
                self.whole()
            },
        )
    }

    #[verifier::opaque]
    pub open spec fn spec_trunc(self) -> Binary64 {
        self.with_whole(self.whole())
    }

    /// The largest whole number that is not above `self`.
    #[verifier::when_used_as_spec(spec_floor)]
    pub fn floor(self) -> (r: Binary64)
        ensures
            r == self.floor(),
    {
        proof {
            reveal(Binary64::spec_floor);
        }
        if !self.is_finite() {
            return self;
        }
        let split = split_whole(self.magnitude_code());
        let up = self.is_negative() && !split.exact;
        make_signed(self.is_negative(), whole_code(self.magnitude_code(), split, up))
    }

    /// The smallest whole number that is not below `self`.
    #[verifier::when_used_as_spec(spec_ceil)]
    pub fn ceil(self) -> (r: Binary64)
        ensures
            r == self.ceil(),
    {
        proof {
            reveal(Binary64::spec_ceil);
        }
        if !self.is_finite() {
            return self;
        }
        let split = split_whole(self.magnitude_code());
        let up = !self.is_negative() && !split.exact;
        make_signed(self.is_negative(), whole_code(self.magnitude_code(), split, up))
    }

    /// The nearest whole number, halves away from zero.
    #[verifier::when_used_as_spec(spec_round)]
    pub fn round(self) -> (r: Binary64)
        ensures
            r == self.round(),
    {
        proof {
            reveal(Binary64::spec_round);
        }
        if !self.is_finite() {
            return self;
        }
        let split = split_whole(self.magnitude_code());
        proof {
            lemma_pow2_pos(1074);
        }
        make_signed(self.is_negative(), whole_code(self.magnitude_code(), split, split.half_or_more))
    }

    /// The whole part, with the sign.
    #[verifier::when_used_as_spec(spec_trunc)]
    pub fn trunc(self) -> (r: Binary64)
        ensures
            r == self.trunc(),
    {
        proof {
            reveal(Binary64::spec_trunc);
        }
        if !self.is_finite() {
            return self;
        }
        let split = split_whole(self.magnitude_code());
        make_signed(self.is_negative(), whole_code(self.magnitude_code(), split, false))
    }

    #[verifier::opaque]
    pub open spec fn spec_to_i64(self) -> i64 {
        if self.is_nan() {
            0
        } else if self.is_infinite() || self.whole() > i64::MAX {
            if self.negative() {
                i64::MIN
            } else {
                i64::MAX
            }
        } else if self.negative() {
            (-(self.whole() as int)) as i64
        } else {
            self.whole() as i64
        }
    }

    /// The whole part as an integer, cut to the range of `i64`; zero for NaN.
    #[verifier::when_used_as_spec(spec_to_i64)]
    pub fn to_i64(self) -> (r: i64)
        ensures
            r == self.to_i64(),
    {
        proof {
            reveal(Binary64::spec_to_i64);
        }
        if self.is_nan() {
            return 0;
        }
        let limit: i64 = if self.is_negative() {
            i64::MIN
        } else {
            i64::MAX
        };
        if self.is_infinite() {
            return limit;
        }
        let split = split_whole(self.magnitude_code());
        if split.large || split.whole > 0x7fff_ffff_ffff_ffff {
            return limit;
        }
        let whole: i64 = split.whole as i64;
        if self.is_negative() {
            -whole
        } else {
            whole
        }
    }

    /// The square root in units of a positive finite number, cut to a whole number of half units
    /// that tells whether the root is exact.
    pub open spec fn root_in_half_units(self) -> nat {
        let square = magnitude(self.code()) * one_in_units();
        let root = integer_root(square);
        if root * root == square {
            2 * root
        } else {
            2 * root + 1
        }
    }

    #[verifier::opaque]
    pub open spec fn spec_sqrt(self) -> Binary64 {
        if self.is_nan() || (self.negative() && self.code() != 0) {
            nan()
        } else if self.is_infinite() || self.code() == 0 {
            self
        } else {
            from_ratio(false, self.root_in_half_units(), 2)
        }
    }

    /// The square root.
    #[verifier::when_used_as_spec(spec_sqrt)]
    pub fn sqrt(self) -> (r: Binary64)
        ensures
            r == self.sqrt(),
    {
        proof {
            reveal(Binary64::spec_sqrt);
        }
        let code: u64 = self.magnitude_code();
        if self.is_nan() || (self.is_negative() && code != 0) {
            return make_nan();
        }
        if self.is_infinite() || code == 0 {
            return self;
        }
        let (m, e) = parts(code);
        let (wide, shift) = normalize(m);
        // e - shift and the scale together are to be even.
        let odd: i32 = (e + 52 - shift) % 2;
        let y: u128 = if odd == 0 {
            (wide as u128) * 0x1_0000_0000_0000_0000
        } else {
            (wide as u128) * 0x2_0000_0000_0000_0000
        };
        let root: u64 = root_of(y);
        let sticky = (root as u128) * (root as u128) != y;
        let half: i32 = (e - shift - 64 - odd + 1074) / 2;
        let ghost n: nat = self.root_in_half_units();
        proof {
            lemma_127();
            lemma_root(
                m as nat,
                e as nat,
                shift as nat,
                odd as nat,
                y as nat,
                root as nat,
                half as nat,
            );
            lemma_root_lower(y as nat, root as nat);
        }
        make_signed(false, round_scaled(root as u128, half, sticky, Ghost(n), Ghost(2nat)))
    }
}

/// The largest integer whose square is not above `n`.
pub open spec fn integer_root(n: nat) -> nat {
    choose|r: nat| is_root(r, n)
}

pub open spec fn is_root(r: nat, n: nat) -> bool {
    r * r <= n < (r + 1) * (r + 1)
}

proof fn lemma_root_unique(a: nat, b: nat, n: nat)
    requires
        is_root(a, n),
        is_root(b, n),
    ensures
        a == b,
{
    if a < b {
        assert((a + 1) * (a + 1) <= b * b) by (nonlinear_arith)
            requires
                a + 1 <= b,
        ;
    }
    if b < a {
        assert((b + 1) * (b + 1) <= a * a) by (nonlinear_arith)
            requires
                b + 1 <= a,
        ;
    }
}

/// Every number has an integer root.
pub proof fn lemma_root_exists(n: nat)
    ensures
        is_root(integer_root(n), n),
    decreases n,
{
    if n == 0 {
        assert(0nat * 0nat == 0 && (0nat + 1) * (0nat + 1) == 1) by (nonlinear_arith);
        assert(is_root(0, 0));
    } else {
        let k = (n - 1) as nat;
        lemma_root_exists(k);
        let r = integer_root(k);
        if n < (r + 1) * (r + 1) {
            assert(is_root(r, n));
        } else {
            assert((r + 2) * (r + 2) > (r + 1) * (r + 1)) by (nonlinear_arith);
            assert(is_root(r + 1, n));
        }
    }
}

fn root_of(y: u128) -> (root: u64)
    requires
        y < 0x80_0000_0000_0000_0000_0000_0000_0000,
    ensures
        is_root(root as nat, y as nat),
{
    let mut low: u64 = 0;
    let mut high: u64 = 0x1000_0000_0000_0000;
    while high - low > 1
        invariant
            low < high <= 0x1000_0000_0000_0000,
            low * low <= y,
            y < high * high,
        decreases high - low,
    {
        let middle: u64 = low + (high - low) / 2;
        assert(middle * middle <= 0x1000_0000_0000_0000 * 0x1000_0000_0000_0000) by (nonlinear_arith)
            requires
                0 <= middle <= 0x1000_0000_0000_0000,
        ;
        if (middle as u128) * (middle as u128) <= y {
            low = middle;
        } else {
            high = middle;
        }
    }
    low
}

proof fn lemma_root_lower(y: nat, root: nat)
    requires
        is_root(root, y),
        y >= 0x10_0000_0000_0000 * 0x1_0000_0000_0000_0000,
    ensures
        root >= 0x20_0000_0000_0000,
{
    if root < 0x20_0000_0000_0000 {
        assert((root + 1) * (root + 1) <= 0x20_0000_0000_0000 * 0x20_0000_0000_0000)
            by (nonlinear_arith)
            requires
                root + 1 <= 0x20_0000_0000_0000,
        ;
        assert(false);
    }
}

/// What the root of `y` says of the root of the magnitude.
proof fn lemma_root(m: nat, e: nat, shift: nat, odd: nat, y: nat, root: nat, half: nat)
    requires
        shift <= 52,
        odd <= 1,
        y == (m * pow2(shift)) * (if odd == 0 {
            0x1_0000_0000_0000_0000int
        } else {
            0x2_0000_0000_0000_0000int
        }),
        is_root(root, y),
        2 * half == e - shift - 64 - odd + 1074,
    ensures
        ({
            let square = (m * pow2(e)) * one_in_units();
            let r = integer_root(square);
            let n = if r * r == square {
                2 * r
            } else {
                2 * r + 1
            };
            represents(root, half as int, root * root != y, n, 2)
        }),
{
    let square = (m * pow2(e)) * one_in_units();
    let r = integer_root(square);
    lemma_root_exists(square);
    let p = pow2(half);
    lemma_pow2_pos(half);
    // square == y * p * p
    let scale = pow2(64 + odd);
    vstd::arithmetic::power2::lemma2_to64_rest();
    lemma_pow2_unfold(65);
    assert(y == (m * pow2(shift)) * scale);
    lemma_pow2_adds(half, half);
    lemma_pow2_adds(shift, 64 + odd);
    lemma_pow2_adds(shift + 64 + odd, half + half);
    lemma_pow2_adds(e, 1074);
    assert(shift + 64 + odd + half + half == e + 1074);
    assert(square == y * (p * p)) by (nonlinear_arith)
        requires
            square == (m * pow2(e)) * pow2(1074),
            y == (m * pow2(shift)) * scale,
            pow2(half + half) == p * p,
            pow2(shift + 64 + odd) == pow2(shift) * scale,
            pow2(e + 1074) == pow2(shift + 64 + odd) * pow2(half + half),
            pow2(e + 1074) == pow2(e) * pow2(1074),
    ;
    // root * p <= r < (root + 1) * p
    assert((root * p) * (root * p) <= square && square < ((root + 1) * p) * ((root + 1) * p))
        by (nonlinear_arith)
        requires
            root * root <= y,
            y + 1 <= (root + 1) * (root + 1),
            square == y * (p * p),
            p > 0,
    ;
    if r < root * p {
        assert((r + 1) * (r + 1) <= (root * p) * (root * p)) by (nonlinear_arith)
            requires
                r + 1 <= root * p,
        ;
        assert(false);
    }
    if r >= (root + 1) * p {
        assert(((root + 1) * p) * ((root + 1) * p) <= r * r) by (nonlinear_arith)
            requires
                (root + 1) * p <= r,
                (root + 1) * p >= 0,
        ;
        assert(false);
    }
    let exact = root * root == y;
    if exact {
        assert((root * p) * (root * p) == square) by (nonlinear_arith)
            requires
                root * root == y,
                square == y * (p * p),
        ;
        assert((root * p + 1) * (root * p + 1) > square) by (nonlinear_arith)
            requires
                (root * p) * (root * p) == square,
                root * p >= 0,
        ;
        assert(root * p >= 0) by (nonlinear_arith);
        lemma_root_unique(r, (root * p) as nat, square);
    } else {
        if r * r == square && r == root * p {
            assert(root * root == y) by (nonlinear_arith)
                requires
                    r == root * p,
                    r * r == y * (p * p),
                    p > 0,
            ;
        }
    }
    assert((2 * p) * root == 2 * (root * p)) by (nonlinear_arith);
    assert((2 * p) * (root + 1) == 2 * ((root + 1) * p)) by (nonlinear_arith);
}

/// A magnitude cut into its whole part and the rest. Where it is `large` it is a whole number,
/// and `whole` is not given.
#[derive(Clone, Copy)]
struct Split {
    large: bool,
    whole: u64,
    exact: bool,
    half_or_more: bool,
}

spec fn splits(code: u64, split: Split) -> bool {
    let whole = magnitude(code) / one_in_units();
    let rest = magnitude(code) % one_in_units();
    &&& split.exact == (rest == 0)
    &&& split.half_or_more == (2 * rest >= one_in_units())
    &&& !split.large ==> split.whole == whole && whole <= 0x7fff_ffff_ffff_ffff
    &&& split.large ==> whole >= 0x8000_0000_0000_0000 && rest == 0 && exponent(code) >= 1074
}

fn split_whole(code: u64) -> (split: Split)
    requires
        code < INFINITY_CODE,
    ensures
        splits(code, split),
{
    let (m, e) = parts(code);
    let ghost mag = magnitude(code) as int;
    let ghost one = one_in_units() as int;
    proof {
        lemma_pow2_pos(1074);
        lemma_127();
        vstd::arithmetic::power2::lemma2_to64();
        vstd::arithmetic::power2::lemma2_to64_rest();
    }
    if e >= 1074 {
        let up: i32 = e - 1074;
        proof {
            lemma_pow2_adds(up as nat, 1074);
            let k = m * pow2(up as nat);
            assert(mag == k * one) by (nonlinear_arith)
                requires
                    mag == m * pow2(e as nat),
                    pow2(e as nat) == pow2(up as nat) * one,
                    k == m * pow2(up as nat),
            ;
            vstd::arithmetic::div_mod::lemma_fundamental_div_mod_converse(mag, one, k as int, 0);
        }
        if up >= 11 {
            proof {
                lemma_pow2_monotone(11, up as nat);
                assert(m * pow2(up as nat) >= 0x10_0000_0000_0000 * 0x800) by (nonlinear_arith)
                    requires
                        m >= 0x10_0000_0000_0000,
                        pow2(up as nat) >= 0x800,
                ;
            }
            return Split { large: true, whole: 0, exact: true, half_or_more: false };
        }
        let p: u128 = power_of_two(up as u32);
        proof {
            lemma_pow2_monotone(up as nat, 10);
            assert(m * p < 0x20_0000_0000_0000 * 0x400) by (nonlinear_arith)
                requires
                    0 <= m < 0x20_0000_0000_0000,
                    0 < p <= 0x400,
            ;
        }
        let whole: u64 = (m as u128 * p) as u64;
        return Split { large: false, whole, exact: true, half_or_more: false };
    }
    let down: i32 = 1074 - e;
    proof {
        lemma_pow2_adds(e as nat, down as nat);
        lemma_pow2_pos(e as nat);
    }
    let ghost pe = pow2(e as nat) as int;
    let ghost pd = pow2(down as nat) as int;
    if down >= 60 {
        proof {
            lemma_pow2_monotone(60, down as nat);
            assert(mag < one && 2 * mag < one) by (nonlinear_arith)
                requires
                    mag == m * pe,
                    one == pe * pd,
                    0 <= m < 0x20_0000_0000_0000,
                    pd >= 0x1000_0000_0000_0000,
                    pe > 0,
            ;
            vstd::arithmetic::div_mod::lemma_fundamental_div_mod_converse(mag, one, 0, mag);
            assert(mag == 0 <==> m == 0) by (nonlinear_arith)
                requires
                    mag == m * pe,
                    pe > 0,
            ;
        }
        return Split { large: false, whole: 0, exact: m == 0, half_or_more: false };
    }
    let p: u128 = power_of_two(down as u32);
    let w: u128 = (m as u128) / p;
    let r: u128 = (m as u128) % p;
    proof {
        lemma_pow2_monotone(down as nat, 60);
        let wi = w as int;
        let ri = r as int;
        vstd::arithmetic::div_mod::lemma_fundamental_div_mod(m as int, pd);
        let rest = ri * pe;
        assert(mag == wi * one + rest && 0 <= rest < one) by (nonlinear_arith)
            requires
                m == pd * wi + ri,
                0 <= ri < pd,
                mag == m * pe,
                one == pe * pd,
                rest == ri * pe,
                pe > 0,
        ;
        vstd::arithmetic::div_mod::lemma_fundamental_div_mod_converse(mag, one, wi, rest);
        assert((rest == 0 <==> ri == 0) && (2 * rest >= one <==> 2 * ri >= pd)) by (nonlinear_arith)
            requires
                rest == ri * pe,
                one == pe * pd,
                pe > 0,
        ;
        vstd::arithmetic::div_mod::lemma_div_nonincreasing(m as int, pd);
    }
    Split { large: false, whole: w as u64, exact: r == 0, half_or_more: 2 * r >= p }
}

/// The code of a whole number.
fn integer_code(n: u64) -> (code: u64)
    ensures
        code == rounded(n as nat * one_in_units(), 1),
        code <= INFINITY_CODE,
{
    if n == 0 {
        proof {
            assert(0nat * one_in_units() == 0) by (nonlinear_arith);
            lemma_rounded_zero(1);
        }
        return 0;
    }
    proof {
        lemma_pow2_zero();
        lemma_represents_product(n as nat, 1074, 0, n as nat * one_in_units());
        lemma_127();
    }
    round_scaled(n as u128, 1074, false, Ghost(n as nat * one_in_units()), Ghost(1nat))
}

/// The code of the whole part, or of the next whole number.
fn whole_code(code: u64, split: Split, up: bool) -> (r: u64)
    requires
        code < INFINITY_CODE,
        splits(code, split),
        up ==> !split.exact,
    ensures
        r == rounded(
            (magnitude(code) / one_in_units() + if up {
                1nat
            } else {
                0nat
            }) * one_in_units(),
            1,
        ),
        r <= INFINITY_CODE,
{
    if split.large {
        let (m, e) = parts(code);
        let ghost mag = magnitude(code);
        proof {
            lemma_pow2_pos(1074);
            vstd::arithmetic::div_mod::lemma_fundamental_div_mod(mag as int, one_in_units() as int);
            let w = mag / one_in_units();
            assert(one_in_units() * w == w * one_in_units()) by (nonlinear_arith);
            lemma_pow2_zero();
            lemma_represents_product(m as nat, e as nat, 0, mag);
            lemma_127();
        }
        return round_scaled(m as u128, e, false, Ghost(mag), Ghost(1nat));
    }
    integer_code(
        if up {
            split.whole + 1
        } else {
            split.whole
        },
    )
}

/// The significand moved up to the top of its 53 bits, and by how much.
fn normalize(m: u64) -> (r: (u64, i32))
    requires
        0 < m < 2 * BINADE,
    ensures
        BINADE <= r.0 < 2 * BINADE,
        0 <= r.1 <= 52,
        r.0 == m * pow2(r.1 as nat),
{
    let mut wide: u64 = m;
    let mut shift: i32 = 0;
    let ghost mut power: nat = 1;
    proof {
        lemma_pow2_zero();
        lemma_binade();
    }
    while wide < BINADE
        invariant
            0 < m,
            0 < wide < 2 * BINADE,
            0 <= shift <= 52,
            wide == m * power,
            power == pow2(shift as nat),
            pow2(52) == BINADE,
        decreases 2 * BINADE - wide,
    {
        proof {
            lemma_pow2_unfold((shift + 1) as nat);
            if shift == 52 {
                assert(m * power >= power) by (nonlinear_arith)
                    requires
                        m >= 1,
                ;
            }
            assert(m * (2 * power) == 2 * (m * power)) by (nonlinear_arith);
            power = 2 * power;
        }
        wide = wide * 2;
        shift = shift + 1;
    }
    (wide, shift)
}

/// What the quotient of `x` and `mb` says of the quotient of the two magnitudes.
proof fn lemma_quotient(ma: nat, ea: nat, mb: nat, eb: nat, shift: nat, x: nat)
    requires
        mb > 0,
        x == (ma * pow2(shift)) * 0x400_0000_0000_0000_0000,
    ensures
        ({
            let n = (ma * pow2(ea)) * one_in_units();
            let d = mb * pow2(eb);
            let e = ea - eb + 1000 - shift;
            forall|m: nat, sticky: bool|
                m * mb <= x < (m + 1) * mb && sticky == (x != m * mb) ==> represents(
                    m,
                    e,
                    sticky,
                    n,
                    d,
                )
        }),
{
    let n = (ma * pow2(ea)) * one_in_units();
    let d = mb * pow2(eb);
    let e = ea - eb + 1000 - shift;
    lemma_pow2_adds(64, 10);
    vstd::arithmetic::power2::lemma2_to64_rest();
    vstd::arithmetic::power2::lemma2_to64();
    assert(pow2(74) == 0x400_0000_0000_0000_0000);
    lemma_pow2_adds(shift, 74);
    let w = pow2(shift + 74);
    lemma_pow2_pos(shift + 74);
    lemma_pow2_pos(eb);
    let big = if e >= 0 {
        d * pow2(e as nat)
    } else {
        d
    };
    let scaled = if e >= 0 {
        n
    } else {
        n * pow2((-e) as nat)
    };
    let t = if e >= 0 {
        pow2(ea + 1074)
    } else {
        pow2(eb + shift + 74)
    };
    lemma_pow2_pos(ea + 1074);
    lemma_pow2_pos(eb + shift + 74);
    lemma_pow2_adds(ea, 1074);
    if e >= 0 {
        let pe = pow2(e as nat);
        lemma_pow2_adds(eb, e as nat);
        lemma_pow2_adds((eb + e) as nat, shift + 74);
        assert(eb + e + shift + 74 == ea + 1074);
        assert(big * w == mb * t) by (nonlinear_arith)
            requires
                big == (mb * pow2(eb)) * pe,
                pow2((eb + e) as nat) == pow2(eb) * pe,
                t == pow2((eb + e) as nat) * w,
        ;
        assert(scaled * w == x * t) by (nonlinear_arith)
            requires
                scaled == (ma * pow2(ea)) * pow2(1074),
                t == pow2(ea) * pow2(1074),
                x == (ma * pow2(shift)) * 0x400_0000_0000_0000_0000,
                w == pow2(shift) * 0x400_0000_0000_0000_0000,
        ;
    } else {
        let k = (-e) as nat;
        lemma_pow2_adds(eb, shift + 74);
        lemma_pow2_adds(ea + 1074, k);
        assert(ea + 1074 + k == eb + shift + 74);
        assert(big * w == mb * t) by (nonlinear_arith)
            requires
                big == mb * pow2(eb),
                t == pow2(eb) * w,
        ;
        assert(scaled * w == x * t) by (nonlinear_arith)
            requires
                scaled == ((ma * pow2(ea)) * pow2(1074)) * pow2(k),
                pow2(ea + 1074) == pow2(ea) * pow2(1074),
                t == pow2(ea + 1074) * pow2(k),
                x == (ma * pow2(shift)) * 0x400_0000_0000_0000_0000,
                w == pow2(shift) * 0x400_0000_0000_0000_0000,
        ;
    }
    assert(d > 0) by (nonlinear_arith)
        requires
            d == mb * pow2(eb),
            mb > 0,
            pow2(eb) > 0,
    ;
    assert forall|m: nat, sticky: bool|
        m * mb <= x < (m + 1) * mb && sticky == (x != m * mb) implies represents(
        m,
        e,
        sticky,
        n,
        d,
    ) by {
        assert(big * m <= scaled && scaled < big * (m + 1) && (scaled == big * m <==> x == m * mb))
            by (nonlinear_arith)
            requires
                w > 0,
                t > 0,
                big * w == mb * t,
                scaled * w == x * t,
                m * mb <= x,
                x < (m + 1) * mb,
        ;
    }
}

fn exponent_of(x: Binary64) -> (e: i32)
    requires
        x.is_finite(),
    ensures
        e == exponent(x.code()),
{
    parts(x.magnitude_code()).1
}

proof fn lemma_127()
    ensures
        pow2(127) == 0x8000_0000_0000_0000_0000_0000_0000_0000,
        pow2(53) == 0x20_0000_0000_0000,
{
    vstd::arithmetic::power2::lemma2_to64_rest();
    lemma_pow2_adds(64, 63);
}

proof fn lemma_rounded_zero(d: nat)
    requires
        d > 0,
    ensures
        rounded(0, d) == 0,
{
    vstd::arithmetic::div_mod::lemma_div_of0(d as int);
    vstd::arithmetic::div_mod::lemma_small_mod(0, d);
}

/// `m * 2^up` units over `2^down` is `m * 2^(up - down)`.
proof fn lemma_represents_product(m: nat, up: nat, down: nat, n: nat)
    requires
        n == m * pow2(up),
    ensures
        represents(m, up - down, false, n, pow2(down)),
{
    let d = pow2(down);
    lemma_pow2_pos(down);
    let e = up - down;
    if e >= 0 {
        lemma_pow2_adds(down, e as nat);
        let big = d * pow2(e as nat);
        assert(big == pow2(up));
        lemma_pow2_pos(up);
        assert(big * m == n && big * (m + 1) > n) by (nonlinear_arith)
            requires
                n == m * big,
                big > 0,
        ;
    } else {
        let k = (-e) as nat;
        lemma_pow2_adds(up, k);
        let scaled = n * pow2(k);
        assert(scaled == d * m && d * (m + 1) > scaled) by (nonlinear_arith)
            requires
                n == m * pow2(up),
                d == pow2(up) * pow2(k),
                scaled == n * pow2(k),
                d > 0,
        ;
    }
}

/// The sum of two finite numbers, the first with the larger exponent.
fn add_ordered(a: Binary64, b: Binary64) -> (r: Binary64)
    requires
        a.is_finite(),
        b.is_finite(),
        exponent(a.code()) >= exponent(b.code()),
    ensures
        r == a.plus(b),
{
    proof {
        reveal(Binary64::spec_plus);
    }
    let (ma, ea) = parts(a.magnitude_code());
    let (mb, eb) = parts(b.magnitude_code());
    let gap: i32 = ea - eb;
    let same_sign = a.is_negative() == b.is_negative();
    let ghost sum: int = a.units() + b.units();
    let ghost n: nat = absolute(sum);
    proof {
        lemma_127();
        lemma_pow2_pos(ea as nat);
        lemma_pow2_pos(eb as nat);
    }
    if gap <= 73 {
        let p: u128 = power_of_two(gap as u32);
        proof {
            lemma_pow2_adds(64, 9);
            vstd::arithmetic::power2::lemma2_to64_rest();
            vstd::arithmetic::power2::lemma2_to64();
            lemma_pow2_monotone(gap as nat, 73);
            assert(pow2(73) == 0x200_0000_0000_0000_0000);
            assert(ma * p <= 0x20_0000_0000_0000 * 0x200_0000_0000_0000_0000) by (nonlinear_arith)
                requires
                    0 <= ma <= 0x20_0000_0000_0000,
                    0 <= p <= 0x200_0000_0000_0000_0000,
            ;
        }
        let high: u128 = (ma as u128) * p;
        let low: u128 = mb as u128;
        let (m, negative): (u128, bool) = if same_sign {
            (high + low, a.is_negative())
        } else if high >= low {
            (high - low, a.is_negative())
        } else {
            (low - high, b.is_negative())
        };
        proof {
            lemma_pow2_adds(eb as nat, gap as nat);
            let q = pow2(eb as nat);
            let pa = pow2(ea as nat);
            assert(ma * pa == high * q) by (nonlinear_arith)
                requires
                    high == ma * p,
                    pa == q * p,
            ;
            assert((high + low) * q == high * q + low * q) by (nonlinear_arith);
            assert((high - low) * q == high * q - low * q) by (nonlinear_arith);
            assert((low - high) * q == low * q - high * q) by (nonlinear_arith);
            assert(n == m * q);
            assert(m > 0 ==> m * q > 0) by (nonlinear_arith)
                requires
                    q > 0,
            ;
            assert(m == 0 ==> m * q == 0) by (nonlinear_arith);
            assert(m > 0 ==> negative == (sum < 0));
        }
        if m == 0 {
            return make_signed(a.is_negative() && b.is_negative(), 0);
        }
        proof {
            lemma_pow2_zero();
            lemma_represents_product(m as nat, eb as nat, 0, n);
        }
        make_signed(negative, round_scaled(m, eb, false, Ghost(n), Ghost(1nat)))
    } else {
        let wide: u128 = (ma as u128) * 0x20_0000;
        let sticky = mb != 0;
        let m: u128 = if sticky && !same_sign {
            wide - 1
        } else {
            wide
        };
        let e: i32 = ea - 21;
        proof {
            vstd::arithmetic::power2::lemma2_to64();
            assert(pow2(21) == 0x20_0000);
            let q = pow2(e as nat);
            let pa = pow2(ea as nat);
            let pb = pow2(eb as nat);
            lemma_pow2_adds(e as nat, 21);
            lemma_pow2_pos(e as nat);
            assert(ma * pa == wide * q) by (nonlinear_arith)
                requires
                    wide == ma * 0x20_0000,
                    pa == q * 0x20_0000,
            ;
            lemma_pow2_adds(eb as nat, 53);
            lemma_pow2_monotone((eb + 53) as nat, e as nat);
            let small = mb * pb;
            assert(0 <= small < q) by (nonlinear_arith)
                requires
                    0 <= mb < 0x20_0000_0000_0000,
                    small == mb * pb,
                    pb * 0x20_0000_0000_0000 <= q,
                    pb > 0,
            ;
            assert(mb > 0 ==> small > 0) by (nonlinear_arith)
                requires
                    small == mb * pb,
                    pb > 0,
            ;
            assert(mb == 0 ==> small == 0) by (nonlinear_arith)
                requires
                    small == mb * pb,
            ;
            let big = 1nat * q;
            assert(big * m == m * q && big * (m + 1) == m * q + q) by (nonlinear_arith)
                requires
                    big == 1 * q,
            ;
            assert((wide - 1) * q == wide * q - q) by (nonlinear_arith);
            assert(wide * q >= q) by (nonlinear_arith)
                requires
                    wide >= 1,
                    q > 0,
            ;
            assert(represents(m as nat, e as int, sticky, n, 1));
        }
        make_signed(a.is_negative(), round_scaled(m, e, sticky, Ghost(n), Ghost(1nat)))
    }
}

/// The magnitude code of `a / b`.
pub fn fraction_code(a: u64, b: u64) -> (code: u64)
    requires
        a < 0x8000_0000_0000_0000,
        b > 0,
    ensures
        code == rounded(a as nat * one_in_units(), b as nat),
        code <= INFINITY_CODE,
{
    let ghost n: nat = a as nat * one_in_units();
    if a == 0 {
        proof {
            assert(0nat * one_in_units() == 0) by (nonlinear_arith);
            lemma_rounded_zero(b as nat);
        }
        return 0;
    }
    let mut wide: u64 = a;
    let mut shift: i32 = 0;
    let ghost mut power: nat = 1;
    proof {
        lemma_pow2_zero();
        vstd::arithmetic::power2::lemma2_to64();
        vstd::arithmetic::power2::lemma2_to64_rest();
    }
    while wide < 0x4000_0000_0000_0000
        invariant
            0 < a,
            0 < wide < 0x8000_0000_0000_0000,
            0 <= shift <= 62,
            wide == a * power,
            power == pow2(shift as nat),
            pow2(62) == 0x4000_0000_0000_0000,
        decreases 0x8000_0000_0000_0000 - wide,
    {
        proof {
            lemma_pow2_unfold((shift + 1) as nat);
            if shift == 62 {
                assert(a * power >= power) by (nonlinear_arith)
                    requires
                        a >= 1,
                ;
            }
            assert(a * (2 * power) == 2 * (a * power)) by (nonlinear_arith);
            power = 2 * power;
        }
        wide = wide * 2;
        shift = shift + 1;
    }
    let x: u128 = (wide as u128) * 0x1_0000_0000_0000_0000;
    let m: u128 = x / (b as u128);
    let sticky = x % (b as u128) != 0;
    let e: i32 = 1010 - shift;
    proof {
        lemma_127();
        let xi = x as int;
        let mi = m as int;
        let bi = b as int;
        assert(mi * bi <= xi && xi < (mi + 1) * bi && (xi == mi * bi <==> !sticky)
            && mi >= 0x20_0000_0000_0000 && mi <= xi) by (nonlinear_arith)
            requires
                xi >= 0x4000_0000_0000_0000 * 0x1_0000_0000_0000_0000,
                0 < bi < 0x1_0000_0000_0000_0000,
                mi == xi / bi,
                sticky == (xi % bi != 0),
        ;
        let w = (power * 0x1_0000_0000_0000_0000) as int;
        lemma_pow2_adds(shift as nat, 64);
        lemma_pow2_adds((shift + 64) as nat, e as nat);
        lemma_pow2_pos(shift as nat);
        lemma_pow2_pos(1074);
        assert(shift + 64 + e == 1074);
        let one = one_in_units() as int;
        let pe = pow2(e as nat) as int;
        let big = b * pe;
        assert(big * w == b * one) by (nonlinear_arith)
            requires
                big == b * pe,
                one == w * pe,
        ;
        assert(n * w == xi * one) by (nonlinear_arith)
            requires
                n == a * one,
                xi == (a * power) * 0x1_0000_0000_0000_0000,
                w == power * 0x1_0000_0000_0000_0000,
        ;
        assert(big * mi <= n && n < big * (mi + 1) && (n == big * mi <==> xi == mi * bi))
            by (nonlinear_arith)
            requires
                w > 0,
                one > 0,
                big * w == bi * one,
                n * w == xi * one,
                mi * bi <= xi,
                xi < (mi + 1) * bi,
        ;
        assert(represents(m as nat, e as int, sticky, n, b as nat));
    }
    round_scaled(m, e, sticky, Ghost(n), Ghost(b as nat))
}

/// The product of numbers without a minus sign has none.
pub proof fn lemma_product_not_negative(a: Binary64, b: Binary64)
    requires
        !a.negative(),
        !b.negative(),
    ensures
        !a.times(b).negative(),
{
    reveal(Binary64::spec_times);
}

/// Rounding a number without a minus sign to an integer gives one that is not negative.
pub proof fn lemma_whole_not_negative(x: Binary64)
    requires
        !x.negative(),
    ensures
        !x.round().negative(),
        x.round().to_i64() >= 0,
{
    reveal(Binary64::spec_round);
    reveal(Binary64::spec_to_i64);
}

} // verus!
