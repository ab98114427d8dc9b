//! Real numbers in binary fixed point with 16 fractional bits.
//!
//! A [`Real`] holds the raw bits `b` of the number `b / 2^16`; the
//! arithmetic is that of `fixed::types::I48F16`.

use fixed::types::I48F16;
use vstd::arithmetic::div_mod::*;
use vstd::arithmetic::mul::*;
use vstd::prelude::*;

verus! {

/// The scale of the fixed-point representation: `2^16`.
pub const ONE_BITS: i64 = 65536;

/// `τ = 2π` rounded to the nearest multiple of `2^-16`, as `from_num`
/// converts the `f64` constant.
pub const TAU_BITS: i64 = 411775;

/// Whether an integer fits the raw representation.
pub open spec fn fits(x: int) -> bool {
    i64::MIN <= x <= i64::MAX
}

/// Raw bits of the product of two numbers given by their raw bits:
/// the exact product rounded towards negative infinity.
pub open spec fn mul_spec(a: int, b: int) -> int {
    (a * b) / 65536
}

/// Integer division rounding towards zero, as Rust's `/` on integers.
pub open spec fn div_toward_zero(x: int, y: int) -> int {
    let q = (if x >= 0 { x } else { -x }) / (if y >= 0 { y } else { -y });
    if (x >= 0) == (y >= 0) { q } else { -q }
}

/// Raw bits of the quotient of two numbers given by their raw bits:
/// the exact quotient rounded towards zero.
pub open spec fn div_spec(a: int, b: int) -> int {
    div_toward_zero(a * 65536, b)
}

/// Raw bits of the sign of a number: `1`, `0` or `-1`.
pub open spec fn signum_spec(a: int) -> int {
    if a > 0 {
        65536
    } else if a < 0 {
        -65536
    } else {
        0
    }
}

/// Absolute value of an integer.
pub open spec fn abs_spec(a: int) -> int {
    if a >= 0 { a } else { -a }
}

/// A real number in fixed point: `bits / 2^16`.
#[derive(Clone, Copy, Debug, PartialEq, Eq)]
pub struct Real {
    bits: i64,
}

impl View for Real {
    type V = int;

    /// The raw bits; the number is `self@ / 2^16`.
    closed spec fn view(&self) -> int {
        self.bits as int
    }
}

/// `fixed`'s `Mul` for `I48F16` on raw bits: the product rounded down
/// (the crate shifts the double-width product right). It panics in debug
/// builds where the result does not fit; `requires` leaves that out.
#[verifier::external_body]
fn fixed_mul(a: i64, b: i64) -> (r: i64)
    requires
        fits(mul_spec(a as int, b as int)),
    ensures
        r == mul_spec(a as int, b as int),
{
    (I48F16::from_bits(a) * I48F16::from_bits(b)).to_bits()
}

/// `fixed`'s `Div` for `I48F16` on raw bits: `(a << 16) / b` in double
/// width, rounded towards zero. It panics on a zero divisor, and in debug
/// builds where the result does not fit; `requires` leaves both out.
#[verifier::external_body]
fn fixed_div(a: i64, b: i64) -> (r: i64)
    requires
        b != 0,
        fits(div_spec(a as int, b as int)),
    ensures
        r == div_spec(a as int, b as int),
{
    (I48F16::from_bits(a) / I48F16::from_bits(b)).to_bits()
}

/// `fixed`'s `I48F16::from_num` on a `u64`: the integer shifted into
/// place. It panics in debug builds where the value does not fit.
#[verifier::external_body]
fn fixed_from_u64(v: u64) -> (r: i64)
    requires
        v * 65536 <= i64::MAX,
    ensures
        r == v * 65536,
{
    I48F16::from_num(v).to_bits()
}

/// `fixed`'s `I48F16::to_num::<i32>`: the fractional bits are discarded,
/// which rounds towards negative infinity. It panics in debug builds where
/// the result does not fit an `i32`.
#[verifier::external_body]
fn fixed_to_i32(bits: i64) -> (r: i32)
    requires
        i32::MIN <= bits / 65536 <= i32::MAX,
    ensures
        r == bits / 65536,
{
    I48F16::from_bits(bits).to_num::<i32>()
}

/// Every number's raw bits fit the representation.
pub broadcast proof fn lemma_real_fits(r: Real)
    ensures
        #[trigger] fits(r@),
{
}

/// Scaling a difference by a factor in `[0, 1]` gives a value between zero
/// and the difference itself.
pub proof fn lemma_scale_between(g: int, d: int)
    requires
        0 <= g <= 65536,
    ensures
        d >= 0 ==> 0 <= mul_spec(g, d) <= d,
        d < 0 ==> d <= mul_spec(g, d) <= 0,
{
    lemma_div_multiples_vanish(d, 65536);
    assert(65536 * d == d * 65536) by {
        lemma_mul_is_commutative(d, 65536);
    }
    if d >= 0 {
        assert(0 <= g * d <= 65536 * d) by (nonlinear_arith)
            requires
                0 <= g <= 65536,
                d >= 0,
        ;
        lemma_div_is_ordered(0, g * d, 65536);
        lemma_div_is_ordered(g * d, 65536 * d, 65536);
    } else {
        assert(65536 * d <= g * d <= 0) by (nonlinear_arith)
            requires
                0 <= g <= 65536,
                d < 0,
        ;
        lemma_div_is_ordered(g * d, 0, 65536);
        lemma_div_is_ordered(65536 * d, g * d, 65536);
    }
}

impl Real {
    /// The number whose raw bits are `bits`.
    pub fn from_bits(bits: i64) -> (r: Real)
        ensures
            r@ == bits,
    {
        Real { bits }
    }

    /// The raw bits of the number.
    pub fn to_bits(self) -> (b: i64)
        ensures
            b == self@,
    {
        self.bits
    }

    pub fn zero() -> (r: Real)
        ensures
            r@ == 0,
    {
        Real { bits: 0 }
    }

    pub fn one() -> (r: Real)
        ensures
            r@ == ONE_BITS,
    {
        Real { bits: ONE_BITS }
    }

    /// `τ = 2π`.
    pub fn tau() -> (r: Real)
        ensures
            r@ == TAU_BITS,
    {
        Real { bits: TAU_BITS }
    }

    /// The integer `v` as a real number.
    pub fn from_u64(v: u64) -> (r: Real)
        requires
            v * 65536 <= i64::MAX,
        ensures
            r@ == v * 65536,
    {
        Real { bits: fixed_from_u64(v) }
    }

    /// The number rounded towards negative infinity to an `i32`.
    pub fn to_i32(self) -> (r: i32)
        requires
            i32::MIN <= self@ / 65536 <= i32::MAX,
        ensures
            r == self@ / 65536,
    {
        fixed_to_i32(self.bits)
    }

    pub fn add(self, rhs: Real) -> (r: Real)
        requires
            fits(self@ + rhs@),
        ensures
            r@ == self@ + rhs@,
    {
        Real { bits: self.bits + rhs.bits }
    }

    pub fn sub(self, rhs: Real) -> (r: Real)
        requires
            fits(self@ - rhs@),
        ensures
            r@ == self@ - rhs@,
    {
        Real { bits: self.bits - rhs.bits }
    }

    pub fn mul(self, rhs: Real) -> (r: Real)
        requires
            fits(mul_spec(self@, rhs@)),
        ensures
            r@ == mul_spec(self@, rhs@),
    {
        Real { bits: fixed_mul(self.bits, rhs.bits) }
    }

    pub fn div(self, rhs: Real) -> (r: Real)
        requires
            rhs@ != 0,
            fits(div_spec(self@, rhs@)),
        ensures
            r@ == div_spec(self@, rhs@),
    {
        Real { bits: fixed_div(self.bits, rhs.bits) }
    }

    pub fn abs(self) -> (r: Real)
        requires
            self@ != i64::MIN,
        ensures
            r@ == abs_spec(self@),
    {
        if self.bits < 0 {
            Real { bits: -self.bits }
        } else {
            self
        }
    }

    /// `1`, `0` or `-1` by the sign of the number.
    pub fn signum(self) -> (r: Real)
        ensures
            r@ == signum_spec(self@),
    {
        if self.bits > 0 {
            Real { bits: ONE_BITS }
        } else if self.bits < 0 {
            Real { bits: -ONE_BITS }
        } else {
            Real { bits: 0 }
        }
    }

    pub fn lt(self, rhs: Real) -> (b: bool)
        ensures
            b == (self@ < rhs@),
    {
        self.bits < rhs.bits
    }

    pub fn le(self, rhs: Real) -> (b: bool)
        ensures
            b == (self@ <= rhs@),
    {
        self.bits <= rhs.bits
    }

    pub fn eq(self, rhs: Real) -> (b: bool)
        ensures
            b == (self@ == rhs@),
    {
        self.bits == rhs.bits
    }
}

} // verus!
