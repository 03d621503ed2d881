//! The scalar of the kernel: an IEEE 754 single-precision number, carried as
//! its 32-bit pattern.
//!
//! Sign handling and ordering are decided on the pattern itself and proved
//! here. Arithmetic is delegated to the `softfloat` crate, a software
//! implementation that works on bit patterns. Each of its operations is a
//! function of the operand patterns alone and is known to the verifier only
//! by name: nothing is claimed here of how it rounds. (Its product can differ
//! from the correctly rounded one in the last place where the result lies
//! below the normal range.)

use vstd::prelude::*;

verus! {

/// Pattern of the sign bit.
pub const SIGN_BIT: u32 = 0x8000_0000;

/// Pattern of positive infinity; every larger magnitude is a NaN.
pub const INFINITY_BITS: u32 = 0x7f80_0000;

/// Pattern of `1.0`.
pub const ONE_BITS: u32 = 0x3f80_0000;

/// Pattern of `0.5`.
pub const HALF_BITS: u32 = 0x3f00_0000;

/// Pattern of `2.0`.
pub const TWO_BITS: u32 = 0x4000_0000;

/// Pattern of `180.0`, the number of degrees in a half turn.
pub const HALF_TURN_BITS: u32 = 0x4334_0000;

/// Pattern of the single-precision number nearest to pi.
pub const PI_BITS: u32 = 0x4049_0fdb;

/// Pattern of `1e-5`, the tolerance within which a point counts as lying on a plane.
pub const EPSILON_BITS: u32 = 0x3727_c5ac;

/// What `softfloat` gives as the sum of two numbers, by their patterns.
pub uninterp spec fn sum_bits(a: u32, b: u32) -> u32;

/// What `softfloat` gives as the product of two numbers, by their patterns.
pub uninterp spec fn product_bits(a: u32, b: u32) -> u32;

/// What `softfloat` gives as the quotient of two numbers, by their patterns.
pub uninterp spec fn quotient_bits(a: u32, b: u32) -> u32;

/// What `softfloat` gives as the square root of a number, by its pattern.
pub uninterp spec fn root_bits(a: u32) -> u32;

/// What `softfloat` gives as the sine of an angle in radians, by its pattern.
pub uninterp spec fn sine_bits(a: u32) -> u32;

/// What `softfloat` gives as the cosine of an angle in radians, by its pattern.
pub uninterp spec fn cosine_bits(a: u32) -> u32;

/// What `softfloat` gives as the pattern of the number for an unsigned integer.
pub uninterp spec fn count_bits(n: u32) -> u32;

/// Calls `softfloat::F32::add` on the two patterns. The result is a function
/// of the operands alone; the contract names it and claims nothing else.
#[verifier::external_body]
fn soft_add(a: u32, b: u32) -> (r: u32)
    ensures
        r == sum_bits(a, b),
{
    softfloat::F32::from_bits(a).add(softfloat::F32::from_bits(b)).to_bits()
}

/// Calls `softfloat::F32::mul` on the two patterns. The result is a function
/// of the operands alone; the contract names it and claims nothing else.
#[verifier::external_body]
fn soft_mul(a: u32, b: u32) -> (r: u32)
    ensures
        r == product_bits(a, b),
{
    softfloat::F32::from_bits(a).mul(softfloat::F32::from_bits(b)).to_bits()
}

/// Calls `softfloat::F32::div` on the two patterns. Division by zero gives an
/// infinity or a NaN and does not fail. The result is a function of the
/// operands alone; the contract names it and claims nothing else.
#[verifier::external_body]
fn soft_div(a: u32, b: u32) -> (r: u32)
    ensures
        r == quotient_bits(a, b),
{
    softfloat::F32::from_bits(a).div(softfloat::F32::from_bits(b)).to_bits()
}

/// Calls `softfloat::F32::sqrt` on the pattern. A negative operand gives a NaN
/// and does not fail. The result is a function of the operand alone; the
/// contract names it and claims nothing else.
#[verifier::external_body]
fn soft_sqrt(a: u32) -> (r: u32)
    ensures
        r == root_bits(a),
{
    softfloat::F32::from_bits(a).sqrt().to_bits()
}

/// Calls `softfloat::F32::sin` on the pattern. The result is a function of
/// the operand alone; the contract names it and claims nothing else.
#[verifier::external_body]
fn soft_sin(a: u32) -> (r: u32)
    ensures
        r == sine_bits(a),
{
    softfloat::F32::from_bits(a).sin().to_bits()
}

/// Calls `softfloat::F32::cos` on the pattern. The result is a function of
/// the operand alone; the contract names it and claims nothing else.
#[verifier::external_body]
fn soft_cos(a: u32) -> (r: u32)
    ensures
        r == cosine_bits(a),
{
    softfloat::F32::from_bits(a).cos().to_bits()
}

/// Calls `softfloat::F32::from_u32`, which converts an unsigned integer to a
/// number. The result is a function of the integer alone; the contract names
/// it and claims nothing else.
#[verifier::external_body]
fn soft_from_u32(n: u32) -> (r: u32)
    ensures
        r == count_bits(n),
{
    softfloat::F32::from_u32(n).to_bits()
}

/// A single-precision number, identified with its bit pattern.
#[derive(Clone, Copy, Debug)]
pub struct Unit {
    pub bits: u32,
}

/// The pattern without its sign bit.
pub open spec fn magnitude(bits: u32) -> u32 {
    if bits >= SIGN_BIT {
        (bits - SIGN_BIT) as u32
    } else {
        bits
    }
}

/// The pattern with its sign bit inverted.
pub open spec fn negated_bits(bits: u32) -> u32 {
    if bits >= SIGN_BIT {
        (bits - SIGN_BIT) as u32
    } else {
        (bits + SIGN_BIT) as u32
    }
}

/// An integer that orders the patterns of numbers as the numbers themselves
/// are ordered. Both zeros have rank 0.
pub open spec fn rank(bits: u32) -> int {
    if bits >= SIGN_BIT {
        -(bits - SIGN_BIT)
    } else {
        bits as int
    }
}

impl Unit {
    /// The number with the given pattern.
    pub fn from_bits(bits: u32) -> (r: Unit)
        ensures
            r.bits == bits,
    {
        Unit { bits }
    }

    /// The pattern of this number.
    pub fn to_bits(self) -> (r: u32)
        ensures
            r == self.bits,
    {
        self.bits
    }

    pub open spec fn spec_zero() -> Unit {
        Unit { bits: 0 }
    }

    pub open spec fn spec_one() -> Unit {
        Unit { bits: ONE_BITS }
    }

    pub open spec fn spec_half() -> Unit {
        Unit { bits: HALF_BITS }
    }

    pub open spec fn spec_two() -> Unit {
        Unit { bits: TWO_BITS }
    }

    pub open spec fn spec_half_turn() -> Unit {
        Unit { bits: HALF_TURN_BITS }
    }

    pub open spec fn spec_pi() -> Unit {
        Unit { bits: PI_BITS }
    }

    pub open spec fn spec_epsilon() -> Unit {
        Unit { bits: EPSILON_BITS }
    }

    /// Positive zero.
    #[verifier::when_used_as_spec(spec_zero)]
    pub fn zero() -> (r: Unit)
        ensures
            r == Unit::spec_zero(),
    {
        Unit { bits: 0 }
    }

    /// The number 1.
    #[verifier::when_used_as_spec(spec_one)]
    pub fn one() -> (r: Unit)
        ensures
            r == Unit::spec_one(),
    {
        Unit { bits: ONE_BITS }
    }

    /// The number 0.5.
    #[verifier::when_used_as_spec(spec_half)]
    pub fn half() -> (r: Unit)
        ensures
            r == Unit::spec_half(),
    {
        Unit { bits: HALF_BITS }
    }

    /// The number 2.
    #[verifier::when_used_as_spec(spec_two)]
    pub fn two() -> (r: Unit)
        ensures
            r == Unit::spec_two(),
    {
        Unit { bits: TWO_BITS }
    }

    /// The number 180.
    #[verifier::when_used_as_spec(spec_half_turn)]
    pub fn half_turn() -> (r: Unit)
        ensures
            r == Unit::spec_half_turn(),
    {
        Unit { bits: HALF_TURN_BITS }
    }

    /// The number nearest to pi.
    #[verifier::when_used_as_spec(spec_pi)]
    pub fn pi() -> (r: Unit)
        ensures
            r == Unit::spec_pi(),
    {
        Unit { bits: PI_BITS }
    }

    /// The tolerance of plane classification.
    #[verifier::when_used_as_spec(spec_epsilon)]
    pub fn epsilon() -> (r: Unit)
        ensures
            r == Unit::spec_epsilon(),
    {
        Unit { bits: EPSILON_BITS }
    }

    /// Whether this pattern is a NaN rather than a number.
    pub open spec fn spec_is_nan(self) -> bool {
        magnitude(self.bits) > INFINITY_BITS
    }

    /// This number with its sign inverted.
    pub open spec fn spec_neg(self) -> Unit {
        Unit { bits: negated_bits(self.bits) }
    }

    pub open spec fn spec_add(self, rhs: Unit) -> Unit {
        Unit { bits: sum_bits(self.bits, rhs.bits) }
    }

    /// The difference is the sum with the second number's sign inverted.
    pub open spec fn spec_sub(self, rhs: Unit) -> Unit {
        self.spec_add(rhs.spec_neg())
    }

    pub open spec fn spec_mul(self, rhs: Unit) -> Unit {
        Unit { bits: product_bits(self.bits, rhs.bits) }
    }

    pub open spec fn spec_div(self, rhs: Unit) -> Unit {
        Unit { bits: quotient_bits(self.bits, rhs.bits) }
    }

    pub open spec fn spec_sqrt(self) -> Unit {
        Unit { bits: root_bits(self.bits) }
    }

    pub open spec fn spec_sin(self) -> Unit {
        Unit { bits: sine_bits(self.bits) }
    }

    pub open spec fn spec_cos(self) -> Unit {
        Unit { bits: cosine_bits(self.bits) }
    }

    pub open spec fn spec_from_count(n: u32) -> Unit {
        Unit { bits: count_bits(n) }
    }

    /// `self < rhs` as numbers: false when either is a NaN, and the two zeros
    /// are equal.
    pub open spec fn spec_lt(self, rhs: Unit) -> bool {
        !self.spec_is_nan() && !rhs.spec_is_nan() && rank(self.bits) < rank(rhs.bits)
    }

    /// `self > rhs` as numbers.
    pub open spec fn spec_gt(self, rhs: Unit) -> bool {
        rhs.spec_lt(self)
    }

    /// `self == rhs` as numbers: false when either is a NaN, and the two zeros
    /// are equal.
    pub open spec fn spec_same(self, rhs: Unit) -> bool {
        !self.spec_is_nan() && !rhs.spec_is_nan() && rank(self.bits) == rank(rhs.bits)
    }

    /// Whether this pattern is a NaN rather than a number.
    #[verifier::when_used_as_spec(spec_is_nan)]
    pub fn is_nan(self) -> (r: bool)
        ensures
            r == self.spec_is_nan(),
    {
        let m: u32 = if self.bits >= SIGN_BIT {
            self.bits - SIGN_BIT
        } else {
            self.bits
        };
        m > INFINITY_BITS
    }

    /// Inverts the sign. Exact for every pattern, NaNs included.
    #[verifier::when_used_as_spec(spec_neg)]
    pub fn neg(self) -> (r: Unit)
        ensures
            r == self.spec_neg(),
    {
        if self.bits >= SIGN_BIT {
            Unit { bits: self.bits - SIGN_BIT }
        } else {
            Unit { bits: self.bits + SIGN_BIT }
        }
    }

    /// The sum.
    #[verifier::when_used_as_spec(spec_add)]
    pub fn add(self, rhs: Unit) -> (r: Unit)
        ensures
            r == self.spec_add(rhs),
    {
        Unit { bits: soft_add(self.bits, rhs.bits) }
    }

    /// The difference: the sum with the second number's sign inverted.
    #[verifier::when_used_as_spec(spec_sub)]
    pub fn sub(self, rhs: Unit) -> (r: Unit)
        ensures
            r == self.spec_sub(rhs),
    {
        self.add(rhs.neg())
    }

    /// The product.
    #[verifier::when_used_as_spec(spec_mul)]
    pub fn mul(self, rhs: Unit) -> (r: Unit)
        ensures
            r == self.spec_mul(rhs),
    {
        Unit { bits: soft_mul(self.bits, rhs.bits) }
    }

    /// The quotient. A zero divisor gives an infinity or a NaN.
    #[verifier::when_used_as_spec(spec_div)]
    pub fn div(self, rhs: Unit) -> (r: Unit)
        ensures
            r == self.spec_div(rhs),
    {
        Unit { bits: soft_div(self.bits, rhs.bits) }
    }

    /// The square root. A negative number gives a NaN.
    #[verifier::when_used_as_spec(spec_sqrt)]
    pub fn sqrt(self) -> (r: Unit)
        ensures
            r == self.spec_sqrt(),
    {
        Unit { bits: soft_sqrt(self.bits) }
    }

    /// The sine of this angle, given in radians.
    #[verifier::when_used_as_spec(spec_sin)]
    pub fn sin(self) -> (r: Unit)
        ensures
            r == self.spec_sin(),
    {
        Unit { bits: soft_sin(self.bits) }
    }

    /// The cosine of this angle, given in radians.
    #[verifier::when_used_as_spec(spec_cos)]
    pub fn cos(self) -> (r: Unit)
        ensures
            r == self.spec_cos(),
    {
        Unit { bits: soft_cos(self.bits) }
    }

    /// The number for an unsigned integer.
    #[verifier::when_used_as_spec(spec_from_count)]
    pub fn from_count(n: u32) -> (r: Unit)
        ensures
            r == Unit::spec_from_count(n),
    {
        Unit { bits: soft_from_u32(n) }
    }

    /// `self < rhs` as numbers.
    #[verifier::when_used_as_spec(spec_lt)]
    pub fn lt(self, rhs: Unit) -> (r: bool)
        ensures
            r == self.spec_lt(rhs),
    {
        if self.is_nan() || rhs.is_nan() {
            false
        } else {
            signed_rank(self.bits) < signed_rank(rhs.bits)
        }
    }

    /// `self > rhs` as numbers.
    #[verifier::when_used_as_spec(spec_gt)]
    pub fn gt(self, rhs: Unit) -> (r: bool)
        ensures
            r == self.spec_gt(rhs),
    {
        rhs.lt(self)
    }

    /// `self == rhs` as numbers.
    #[verifier::when_used_as_spec(spec_same)]
    pub fn same(self, rhs: Unit) -> (r: bool)
        ensures
            r == self.spec_same(rhs),
    {
        if self.is_nan() || rhs.is_nan() {
            false
        } else {
            signed_rank(self.bits) == signed_rank(rhs.bits)
        }
    }
}

impl core::ops::Add for Unit {
    type Output = Unit;

    fn add(self, rhs: Unit) -> (r: Unit) {
        Unit { bits: soft_add(self.bits, rhs.bits) }
    }
}

impl vstd::std_specs::ops::AddSpecImpl for Unit {
    open spec fn obeys_add_spec() -> bool {
        true
    }

    open spec fn add_req(self, rhs: Unit) -> bool {
        true
    }

    open spec fn add_spec(self, rhs: Unit) -> Unit {
        self.spec_add(rhs)
    }
}

impl core::ops::Sub for Unit {
    type Output = Unit;

    fn sub(self, rhs: Unit) -> (r: Unit) {
        Unit { bits: soft_add(self.bits, rhs.neg().bits) }
    }
}

impl vstd::std_specs::ops::SubSpecImpl for Unit {
    open spec fn obeys_sub_spec() -> bool {
        true
    }

    open spec fn sub_req(self, rhs: Unit) -> bool {
        true
    }

    open spec fn sub_spec(self, rhs: Unit) -> Unit {
        self.spec_sub(rhs)
    }
}

impl core::ops::Mul for Unit {
    type Output = Unit;

    fn mul(self, rhs: Unit) -> (r: Unit) {
        Unit { bits: soft_mul(self.bits, rhs.bits) }
    }
}

impl vstd::std_specs::ops::MulSpecImpl for Unit {
    open spec fn obeys_mul_spec() -> bool {
        true
    }

    open spec fn mul_req(self, rhs: Unit) -> bool {
        true
    }

    open spec fn mul_spec(self, rhs: Unit) -> Unit {
        self.spec_mul(rhs)
    }
}

impl core::ops::Div for Unit {
    type Output = Unit;

    fn div(self, rhs: Unit) -> (r: Unit) {
        Unit { bits: soft_div(self.bits, rhs.bits) }
    }
}

impl vstd::std_specs::ops::DivSpecImpl for Unit {
    open spec fn obeys_div_spec() -> bool {
        true
    }

    open spec fn div_req(self, rhs: Unit) -> bool {
        true
    }

    open spec fn div_spec(self, rhs: Unit) -> Unit {
        self.spec_div(rhs)
    }
}

impl core::ops::Neg for Unit {
    type Output = Unit;

    fn neg(self) -> (r: Unit) {
        if self.bits >= SIGN_BIT {
            Unit { bits: self.bits - SIGN_BIT }
        } else {
            Unit { bits: self.bits + SIGN_BIT }
        }
    }
}

impl vstd::std_specs::ops::NegSpecImpl for Unit {
    open spec fn obeys_neg_spec() -> bool {
        true
    }

    open spec fn neg_req(self) -> bool {
        true
    }

    open spec fn neg_spec(self) -> Unit {
        self.spec_neg()
    }
}

/// The rank of a pattern as a machine integer.
fn signed_rank(bits: u32) -> (r: i64)
    ensures
        r == rank(bits),
{
    if bits >= SIGN_BIT {
        let m: u32 = bits - SIGN_BIT;
        let wide: i64 = m as i64;
        -wide
    } else {
        bits as i64
    }
}

} // verus!
