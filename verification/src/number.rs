//! IEEE 754 double-precision numbers, held as their 64 bits.
//!
//! Every finite double is a whole multiple of the smallest positive one, `2^-1074`. The model of
//! a finite number is therefore a mathematical integer, its value counted in that unit, and the
//! operations below are stated and proved over those integers.
use vstd::arithmetic::div_mod::*;
use vstd::arithmetic::mul::*;
use vstd::arithmetic::power2::*;
use vstd::prelude::*;

verus! {

/// The bit that holds the sign.
pub const SIGN_BIT: u64 = 0x8000_0000_0000_0000;

/// The bits of positive infinity. Below them lie the finite magnitudes, above them the NaNs.
pub const INFINITY_BITS: u64 = 0x7FF0_0000_0000_0000;

/// The bits of the NaN that arithmetic gives.
pub const NAN_BITS: u64 = 0x7FF8_0000_0000_0000;

/// `2^52`: what one step of the exponent adds to the bits, and the hidden bit of a significand.
pub const HIDDEN_BIT: u64 = 0x10_0000_0000_0000;

/// A double, as JavaScript's Number type has it.
#[derive(Clone, Copy, Debug, PartialEq, Eq, Structural)]
pub struct Number {
    pub bits: u64,
}

/// The significand of a magnitude given by its bits, the hidden bit included.
pub open spec fn significand(magnitude_bits: nat) -> nat {
    if magnitude_bits < HIDDEN_BIT {
        magnitude_bits
    } else {
        HIDDEN_BIT as nat + magnitude_bits % (HIDDEN_BIT as nat)
    }
}

/// The power of two, counted from `2^-1074`, by which the significand is scaled.
pub open spec fn scale(magnitude_bits: nat) -> nat {
    if magnitude_bits < HIDDEN_BIT {
        0
    } else {
        (magnitude_bits / (HIDDEN_BIT as nat) - 1) as nat
    }
}

/// The magnitude that finite bits stand for, in units of `2^-1074`.
pub open spec fn magnitude(magnitude_bits: nat) -> nat {
    significand(magnitude_bits) * pow2(scale(magnitude_bits))
}

/// The number one, in units of `2^-1074`.
pub open spec fn one() -> nat {
    pow2(1074)
}

/// The position of the highest bit of a positive integer.
pub open spec fn highest_bit(n: nat) -> nat
    decreases n,
{
    if n < 2 {
        0
    } else {
        1 + highest_bit(n / 2)
    }
}

/// The bits of the magnitude nearest to `n` units of `2^-1074`, a tie going to the even
/// significand, and infinity beyond the largest double.
pub open spec fn rounded(n: nat) -> nat {
    if n < 2 * HIDDEN_BIT {
        n
    } else {
        let step = (highest_bit(n) - 52) as nat;
        let quotient = n / pow2(step);
        let remainder = n % pow2(step);
        let up = 2 * remainder > pow2(step) || (2 * remainder == pow2(step) && quotient % 2 == 1);
        let bits = step * HIDDEN_BIT as nat + quotient + if up { 1nat } else { 0nat };
        if bits < INFINITY_BITS {
            bits
        } else {
            INFINITY_BITS as nat
        }
    }
}

/// The 32-bit two's-complement integer that agrees with `n` in its lowest 32 bits.
pub open spec fn wrapped_int32(n: int) -> int {
    (n + 0x8000_0000) % 0x1_0000_0000 - 0x8000_0000
}

impl Number {
    /// Whether the sign bit is set.
    pub open spec fn negative(self) -> bool {
        self.bits >= SIGN_BIT
    }

    /// The bits without the sign.
    pub open spec fn magnitude_bits(self) -> nat {
        (self.bits % SIGN_BIT) as nat
    }

    pub open spec fn nan(self) -> bool {
        self.magnitude_bits() > INFINITY_BITS
    }

    pub open spec fn infinite(self) -> bool {
        self.magnitude_bits() == INFINITY_BITS
    }

    pub open spec fn finite(self) -> bool {
        self.magnitude_bits() < INFINITY_BITS
    }

    /// The value of a finite number, in units of `2^-1074`.
    pub open spec fn units(self) -> int {
        if self.negative() {
            -(magnitude(self.magnitude_bits()) as int)
        } else {
            magnitude(self.magnitude_bits()) as int
        }
    }

    /// The order of numbers: a NaN is below nothing and above nothing.
    pub open spec fn less(self, other: Number) -> bool {
        if self.nan() || other.nan() {
            false
        } else if self.infinite() || other.infinite() {
            self.bits != other.bits && (self.infinite() ==> self.negative()) && (other.infinite()
                ==> !other.negative())
        } else {
            self.units() < other.units()
        }
    }

    /// Equality of numbers: a NaN equals nothing, and both zeros are equal.
    pub open spec fn same(self, other: Number) -> bool {
        if self.nan() || other.nan() {
            false
        } else if self.infinite() || other.infinite() {
            self.bits == other.bits
        } else {
            self.units() == other.units()
        }
    }

    /// Whether the number is finite and has no fractional part.
    pub open spec fn integral(self) -> bool {
        self.finite() && magnitude(self.magnitude_bits()) % one() == 0
    }

    /// The nearest number to the exact sum, a tie going to the even significand. An exact sum of
    /// zero is positive unless both terms are negative.
    pub open spec fn sum(self, other: Number) -> Number {
        if self.nan() || other.nan() || (self.infinite() && other.infinite() && self.bits
            != other.bits) {
            Number { bits: NAN_BITS }
        } else if self.infinite() {
            self
        } else if other.infinite() {
            other
        } else {
            let total = self.units() + other.units();
            if total < 0 {
                Number { bits: (SIGN_BIT + rounded(-total as nat)) as u64 }
            } else if total == 0 && self.negative() && other.negative() {
                Number { bits: SIGN_BIT }
            } else {
                Number { bits: rounded(total as nat) as u64 }
            }
        }
    }

    /// The 32-bit integer that a shift reads from the number: the integer part reduced by whole
    /// multiples of `2^32` towards zero, one multiple less from `2^31` on, and no lower than the
    /// least 32-bit integer.
    pub open spec fn int32(self) -> int {
        let part = self.integer_part();
        let reduced = if part < 0 {
            -((-part) % 0x1_0000_0000)
        } else {
            part % 0x1_0000_0000
        };
        if reduced >= 0x8000_0000 {
            reduced - 0x1_0000_0000
        } else if reduced < -0x8000_0000 {
            -0x8000_0000
        } else {
            reduced
        }
    }

    /// The 32-bit integer that agrees with the integer part in its lowest 32 bits.
    pub open spec fn low_int32(self) -> int {
        wrapped_int32(self.integer_part())
    }

    /// The number without its fractional part; zero where it is not finite.
    pub open spec fn integer_part(self) -> int {
        if !self.finite() {
            0
        } else if self.negative() {
            -((magnitude(self.magnitude_bits()) / one()) as int)
        } else {
            (magnitude(self.magnitude_bits()) / one()) as int
        }
    }
}

/// `bits` is the scale times `2^52` plus the significand, whichever of the two forms it has.
pub proof fn lemma_parts(magnitude_bits: nat)
    ensures
        magnitude_bits == scale(magnitude_bits) * HIDDEN_BIT + significand(magnitude_bits),
        significand(magnitude_bits) < 2 * HIDDEN_BIT,
        scale(magnitude_bits) > 0 ==> significand(magnitude_bits) >= HIDDEN_BIT,
        magnitude_bits < INFINITY_BITS ==> scale(magnitude_bits) <= 2045,
{
}

/// Magnitudes are ordered as their bits are.
pub proof fn lemma_magnitude_increases(a: nat, b: nat)
    requires
        a < b,
    ensures
        magnitude(a) < magnitude(b),
{
    lemma_parts(a);
    lemma_parts(b);
    let (sa, sb) = (scale(a), scale(b));
    lemma_pow2_pos(sa);
    lemma_pow2_pos(sb);
    if sa == sb {
        lemma_mul_strict_inequality(
            significand(a) as int,
            significand(b) as int,
            pow2(sa) as int,
        );
    } else {
        assert(sa < sb);
        lemma_pow2_unfold(sa + 1);
        if sa + 1 < sb {
            lemma_pow2_strictly_increases(sa + 1, sb);
        }
        assert(significand(a) * pow2(sa) < 2 * HIDDEN_BIT * pow2(sa)) by (nonlinear_arith)
            requires
                significand(a) < 2 * HIDDEN_BIT,
                pow2(sa) > 0,
        ;
        assert(2 * HIDDEN_BIT * pow2(sa) == HIDDEN_BIT * pow2(sa + 1)) by (nonlinear_arith)
            requires
                pow2(sa + 1) == 2 * pow2(sa),
        ;
        assert(HIDDEN_BIT * pow2(sa + 1) <= significand(b) * pow2(sb)) by (nonlinear_arith)
            requires
                HIDDEN_BIT <= significand(b),
                pow2(sa + 1) <= pow2(sb),
                0 < pow2(sa + 1),
        ;
    }
}

/// The order of two magnitudes and zero, decided on their bits.
proof fn lemma_magnitude_order(a: nat, b: nat)
    ensures
        a < b <==> magnitude(a) < magnitude(b),
        b < a <==> magnitude(b) < magnitude(a),
        a == 0 <==> magnitude(a) == 0,
        b == 0 <==> magnitude(b) == 0,
{
    assert(magnitude(0) == 0) by {
        lemma_mul_basics(pow2(0) as int);
    }
    if a < b {
        lemma_magnitude_increases(a, b);
    }
    if b < a {
        lemma_magnitude_increases(b, a);
    }
    if 0 < a {
        lemma_magnitude_increases(0, a);
    }
    if 0 < b {
        lemma_magnitude_increases(0, b);
    }
}

/// The integer part and the remainder of a scaled significand, above and below the point.
proof fn lemma_integer_part(significand: nat, scale: nat)
    ensures
        scale >= 1074 ==> {
            &&& (significand * pow2(scale)) % one() == 0
            &&& (significand * pow2(scale)) / one() == significand * pow2((scale - 1074) as nat)
        },
        scale < 1074 ==> {
            &&& (significand * pow2(scale)) % one() == pow2(scale) * (significand % pow2(
                (1074 - scale) as nat,
            ))
            &&& (significand * pow2(scale)) / one() == significand / pow2((1074 - scale) as nat)
        },
        pow2(scale) > 0,
{
    lemma_pow2_pos(1074);
    lemma_pow2_pos(scale);
    let n = significand * pow2(scale);
    if scale >= 1074 {
        let above = pow2((scale - 1074) as nat);
        lemma_pow2_adds((scale - 1074) as nat, 1074);
        lemma_mul_is_associative(significand as int, above as int, one() as int);
        lemma_mod_multiples_basic((significand * above) as int, one() as int);
        lemma_div_by_multiple((significand * above) as int, one() as int);
    } else {
        let below = pow2((1074 - scale) as nat);
        lemma_pow2_pos((1074 - scale) as nat);
        lemma_pow2_adds(scale, (1074 - scale) as nat);
        lemma_mul_is_commutative(significand as int, pow2(scale) as int);
        lemma_truncate_middle(significand as int, pow2(scale) as int, below as int);
        lemma_div_denominator(n as int, pow2(scale) as int, below as int);
        lemma_div_by_multiple(significand as int, pow2(scale) as int);
    }
}

/// `2^exponent`, for the exponents that a `u128` holds.
fn power_of_two(exponent: u64) -> (r: u128)
    requires
        exponent < 128,
    ensures
        r == pow2(exponent as nat),
{
    let mut r: u128 = 1;
    let mut i: u64 = 0;
    proof {
        lemma2_to64();
    }
    while i < exponent
        invariant
            i <= exponent < 128,
            r == pow2(i as nat),
        decreases exponent - i,
    {
        proof {
            lemma_pow2_unfold((i + 1) as nat);
            lemma_pow2_adds(64, 63);
            lemma2_to64();
            lemma2_to64_rest();
            if i + 1 < 127 {
                lemma_pow2_strictly_increases((i + 1) as nat, 127);
            }
            assert(0x1_0000_0000_0000_0000 * 0x8000_0000_0000_0000
                == 0x8000_0000_0000_0000_0000_0000_0000_0000);
        }
        r = r * 2;
        i = i + 1;
    }
    r
}

/// The significand and the scale of a magnitude.
fn parts(magnitude_bits: u64) -> (r: (u64, u64))
    ensures
        r.0 == significand(magnitude_bits as nat),
        r.1 == scale(magnitude_bits as nat),
{
    if magnitude_bits < HIDDEN_BIT {
        (magnitude_bits, 0)
    } else {
        (HIDDEN_BIT + magnitude_bits % HIDDEN_BIT, magnitude_bits / HIDDEN_BIT - 1)
    }
}

impl Number {
    fn is_negative(self) -> (r: bool)
        ensures
            r == self.negative(),
    {
        self.bits >= SIGN_BIT
    }

    fn unsigned(self) -> (r: u64)
        ensures
            r == self.magnitude_bits(),
    {
        self.bits % SIGN_BIT
    }

    /// Whether the sign bit is clear.
    pub fn is_sign_positive(self) -> (r: bool)
        ensures
            r == !self.negative(),
    {
        self.bits < SIGN_BIT
    }

    /// Whether this is a NaN.
    pub fn is_nan(self) -> (r: bool)
        ensures
            r == self.nan(),
    {
        self.unsigned() > INFINITY_BITS
    }

    /// `self < other`.
    pub fn is_less(self, other: Number) -> (r: bool)
        ensures
            r == self.less(other),
    {
        let (a, b): (u64, u64) = (self.unsigned(), other.unsigned());
        proof {
            lemma_magnitude_order(a as nat, b as nat);
        }
        if a > INFINITY_BITS || b > INFINITY_BITS {
            false
        } else if self.is_negative() {
            if other.is_negative() {
                b < a
            } else {
                a != 0 || b != 0
            }
        } else {
            !other.is_negative() && a < b
        }
    }

    /// `self == other`.
    pub fn is_same(self, other: Number) -> (r: bool)
        ensures
            r == self.same(other),
    {
        let (a, b): (u64, u64) = (self.unsigned(), other.unsigned());
        proof {
            lemma_magnitude_order(a as nat, b as nat);
        }
        if a > INFINITY_BITS || b > INFINITY_BITS {
            false
        } else {
            self.bits == other.bits || (a == 0 && b == 0)
        }
    }
}

impl Number {
    /// Whether the number is finite and has no fractional part.
    pub fn is_integral(self) -> (r: bool)
        ensures
            r == self.integral(),
    {
        let bits: u64 = self.unsigned();
        if bits >= INFINITY_BITS {
            return false;
        }
        let (significand, scale): (u64, u64) = parts(bits);
        proof {
            lemma_parts(bits as nat);
            lemma_integer_part(significand as nat, scale as nat);
        }
        if scale >= 1074 {
            return true;
        }
        let below: u64 = 1074 - scale;
        if below >= 53 {
            proof {
                lemma2_to64_rest();
                if below > 53 {
                    lemma_pow2_strictly_increases(53, below as nat);
                }
                lemma_small_mod(significand as nat, pow2(below as nat));
                lemma_product_zero(pow2(scale as nat), significand as nat);
            }
            significand == 0
        } else {
            let divisor: u128 = power_of_two(below);
            proof {
                lemma_pow2_pos(below as nat);
                lemma_product_zero(
                    pow2(scale as nat),
                    significand as nat % pow2(below as nat),
                );
            }
            significand as u128 % divisor == 0
        }
    }

    /// Whether the magnitude is `2^53` or more.
    pub fn is_at_least_2_53(self) -> (r: bool)
        ensures
            r == (!self.nan() && (self.infinite() || magnitude(self.magnitude_bits()) >= pow2(53)
                * one())),
    {
        let bits: u64 = self.unsigned();
        proof {
            lemma_magnitude_order(bits as nat, 0x4340_0000_0000_0000);
            lemma_two_to_53();
        }
        bits >= 0x4340_0000_0000_0000 && bits <= INFINITY_BITS
    }

    /// The integer that a finite number of `2^53` or more in magnitude is, without its sign: a
    /// significand and the power of two by which it is scaled.
    pub fn scaled_integer(self) -> (r: (u64, u64))
        requires
            self.finite(),
            magnitude(self.magnitude_bits()) >= pow2(53) * one(),
        ensures
            r.0 * pow2(r.1 as nat) == magnitude(self.magnitude_bits()) / one(),
    {
        let bits: u64 = self.unsigned();
        let (significand, scale): (u64, u64) = parts(bits);
        proof {
            lemma_magnitude_order(bits as nat, 0x4340_0000_0000_0000);
            lemma_two_to_53();
            lemma_integer_part(significand as nat, scale as nat);
        }
        (significand, scale - 1074)
    }
}

impl Number {
    /// The integer part of a magnitude below `2^53`.
    fn small_integer_part(magnitude_bits: u64) -> (r: u64)
        requires
            magnitude_bits < INFINITY_BITS,
            magnitude(magnitude_bits as nat) < pow2(53) * one(),
        ensures
            r == magnitude(magnitude_bits as nat) / one(),
            r < 0x20_0000_0000_0000,
    {
        let (significand, scale): (u64, u64) = parts(magnitude_bits);
        proof {
            lemma_parts(magnitude_bits as nat);
            lemma_integer_part(significand as nat, scale as nat);
            lemma2_to64_rest();
            lemma2_to64();
            lemma_pow2_pos(1074);
        }
        if scale >= 1074 {
            proof {
                if scale > 1074 {
                    lemma_pow2_unfold((scale - 1074) as nat);
                    lemma_pow2_pos((scale - 1075) as nat);
                    lemma_pow2_adds((scale - 1074) as nat, 1074);
                    assert(false) by (nonlinear_arith)
                        requires
                            significand >= 0x10_0000_0000_0000,
                            significand * pow2(scale as nat) < 0x20_0000_0000_0000 * pow2(1074),
                            pow2(scale as nat) == pow2((scale - 1074) as nat) * pow2(1074),
                            pow2((scale - 1074) as nat) >= 2,
                            pow2(1074) > 0,
                    ;
                }
                lemma_mul_basics(significand as int);
            }
            significand
        } else if 1074 - scale >= 53 {
            proof {
                if 1074 - scale > 53 {
                    lemma_pow2_strictly_increases(53, (1074 - scale) as nat);
                }
                lemma_basic_div(significand as int, pow2((1074 - scale) as nat) as int);
            }
            0
        } else {
            let divisor: u128 = power_of_two(1074 - scale);
            proof {
                lemma_pow2_pos((1074 - scale) as nat);
                lemma_div_is_ordered_by_denominator(significand as int, 1, divisor as int);
            }
            (significand as u128 / divisor) as u64
        }
    }

    /// The integer part, for the numbers below `2^53` in magnitude and the NaNs.
    pub fn to_i64(self) -> (r: i64)
        requires
            self.nan() || (self.finite() && magnitude(self.magnitude_bits()) < pow2(53) * one()),
        ensures
            r == self.integer_part(),
    {
        if self.is_nan() {
            return 0;
        }
        let part: u64 = Self::small_integer_part(self.unsigned());
        if self.is_negative() {
            -(part as i64)
        } else {
            part as i64
        }
    }

    /// The integer part of a magnitude, modulo `2^32`.
    fn low_integer_part(magnitude_bits: u64) -> (r: u64)
        requires
            magnitude_bits < INFINITY_BITS,
        ensures
            r == (magnitude(magnitude_bits as nat) / one()) % 0x1_0000_0000,
    {
        let (significand, scale): (u64, u64) = parts(magnitude_bits);
        proof {
            lemma_parts(magnitude_bits as nat);
            lemma_integer_part(significand as nat, scale as nat);
            lemma2_to64();
            lemma2_to64_rest();
        }
        if scale >= 1106 {
            proof {
                let above = pow2((scale - 1106) as nat);
                lemma_pow2_adds((scale - 1106) as nat, 32);
                lemma_mul_is_associative(significand as int, above as int, 0x1_0000_0000);
                lemma_mod_multiples_basic((significand * above) as int, 0x1_0000_0000);
            }
            0
        } else if scale >= 1074 {
            let factor: u128 = power_of_two(scale - 1074);
            proof {
                if scale - 1074 < 31 {
                    lemma_pow2_strictly_increases((scale - 1074) as nat, 31);
                }
                assert(significand * factor < 0x20_0000_0000_0000 * 0x1_0000_0000)
                    by (nonlinear_arith)
                    requires
                        significand < 0x20_0000_0000_0000,
                        factor < 0x1_0000_0000,
                ;
            }
            ((significand as u128 * factor) % 0x1_0000_0000) as u64
        } else if 1074 - scale >= 53 {
            proof {
                if 1074 - scale > 53 {
                    lemma_pow2_strictly_increases(53, (1074 - scale) as nat);
                }
                lemma_basic_div(significand as int, pow2((1074 - scale) as nat) as int);
            }
            0
        } else {
            let divisor: u128 = power_of_two(1074 - scale);
            proof {
                lemma_pow2_pos((1074 - scale) as nat);
            }
            ((significand as u128 / divisor) % 0x1_0000_0000) as u64
        }
    }

    /// The 32-bit integer that a shift reads from the number.
    pub fn to_int32(self) -> (r: i32)
        ensures
            r == self.int32(),
    {
        let bits: u64 = self.unsigned();
        if bits >= INFINITY_BITS {
            return 0;
        }
        let low: u64 = Self::low_integer_part(bits);
        proof {
            lemma_pow2_pos(1074);
            lemma_div_pos_is_pos(magnitude(bits as nat) as int, one() as int);
        }
        if self.is_negative() {
            if low > 0x8000_0000 {
                -0x8000_0000
            } else {
                (-(low as i64)) as i32
            }
        } else if low >= 0x8000_0000 {
            (low as i64 - 0x1_0000_0000) as i32
        } else {
            low as i32
        }
    }
}

impl Number {
    /// The 32-bit integer that agrees with the integer part in its lowest 32 bits.
    pub fn to_low_int32(self) -> (r: i32)
        ensures
            r == self.low_int32(),
    {
        let bits: u64 = self.unsigned();
        if bits >= INFINITY_BITS {
            return 0;
        }
        let low: u64 = Self::low_integer_part(bits);
        let ghost part = (magnitude(bits as nat) / one()) as int;
        proof {
            lemma_pow2_pos(1074);
            lemma_div_pos_is_pos(magnitude(bits as nat) as int, one() as int);
            lemma_fundamental_div_mod(part, 0x1_0000_0000);
            let q = part / 0x1_0000_0000;
            lemma_mod_multiples_vanish(q, low as int + 0x8000_0000, 0x1_0000_0000);
            lemma_mod_multiples_vanish(-q, -(low as int) + 0x8000_0000, 0x1_0000_0000);
        }
        let wrapped: i64 = if self.is_negative() {
            -(low as i64)
        } else {
            low as i64
        };
        if wrapped >= 0x8000_0000 {
            (wrapped - 0x1_0000_0000) as i32
        } else if wrapped < -0x8000_0000 {
            (wrapped + 0x1_0000_0000) as i32
        } else {
            wrapped as i32
        }
    }
}

/// The highest bit bounds a positive integer from both sides.
proof fn lemma_highest_bit(n: nat)
    requires
        n > 0,
    ensures
        pow2(highest_bit(n)) <= n < pow2(highest_bit(n) + 1),
    decreases n,
{
    lemma2_to64();
    if n >= 2 {
        lemma_highest_bit(n / 2);
        lemma_pow2_unfold(highest_bit(n));
        lemma_pow2_unfold(highest_bit(n) + 1);
    }
}

/// Only one power of two bounds a positive integer from both sides.
proof fn lemma_highest_bit_is(n: nat, position: nat)
    requires
        pow2(position) <= n < pow2(position + 1),
    ensures
        highest_bit(n) == position,
{
    lemma_pow2_pos(position);
    lemma_highest_bit(n);
    let h = highest_bit(n);
    if h < position {
        if h + 1 < position {
            lemma_pow2_strictly_increases(h + 1, position);
        }
    } else if position < h {
        if position + 1 < h {
            lemma_pow2_strictly_increases(position + 1, h);
        }
    }
}

/// Scaling by a power of two moves the highest bit by its exponent.
proof fn lemma_highest_bit_scaled(n: nat, position: nat, scale: nat)
    requires
        pow2(position) <= n < pow2(position + 1),
    ensures
        highest_bit(n * pow2(scale)) == position + scale,
        pow2(position + scale) <= n * pow2(scale) < pow2(position + scale + 1),
{
    lemma_pow2_pos(scale);
    lemma_pow2_adds(position, scale);
    lemma_pow2_adds(position + 1, scale);
    lemma_mul_inequality(pow2(position) as int, n as int, pow2(scale) as int);
    lemma_mul_strict_inequality(n as int, pow2(position + 1) as int, pow2(scale) as int);
    lemma_highest_bit_is(n * pow2(scale), position + scale);
}

/// Quotient and remainder of a scaled integer by a power of two.
proof fn lemma_scaled_parts(n: nat, scale: nat, position: nat)
    ensures
        (n * pow2(scale)) / pow2(scale + position) == n / pow2(position),
        (n * pow2(scale)) % pow2(scale + position) == pow2(scale) * (n % pow2(position)),
        pow2(scale + position) == pow2(scale) * pow2(position),
        pow2(scale) > 0,
        pow2(position) > 0,
{
    let (a, b) = (pow2(scale), pow2(position));
    lemma_pow2_pos(scale);
    lemma_pow2_pos(position);
    lemma_pow2_adds(scale, position);
    lemma_mul_is_commutative(n as int, a as int);
    lemma_truncate_middle(n as int, a as int, b as int);
    lemma_div_denominator((n * a) as int, a as int, b as int);
    lemma_div_by_multiple(n as int, a as int);
}

/// The position of the highest bit.
fn find_highest_bit(n: u128) -> (r: u64)
    requires
        0 < n < 0x80_0000_0000_0000_0000_0000_0000_0000,
    ensures
        pow2(r as nat) <= n < pow2((r + 1) as nat),
        r < 120,
{
    let mut power: u128 = 1;
    let mut r: u64 = 0;
    proof {
        lemma2_to64();
    }
    while power * 2 <= n
        invariant
            0 < n < 0x80_0000_0000_0000_0000_0000_0000_0000,
            power == pow2(r as nat),
            0 < power <= n,
            r < 120,
        decreases n - power,
    {
        proof {
            lemma_pow2_unfold((r + 1) as nat);
            if r >= 118 {
                lemma_pow2_adds(64, 55);
                lemma2_to64();
                lemma2_to64_rest();
                if r == 119 {
                    lemma_pow2_unfold(120);
                }
                assert(0x1_0000_0000_0000_0000 * 0x80_0000_0000_0000
                    == 0x80_0000_0000_0000_0000_0000_0000_0000);
            }
        }
        power = power * 2;
        r = r + 1;
    }
    proof {
        lemma_pow2_unfold((r + 1) as nat);
    }
    r
}

/// The nearest magnitude to `n * 2^scale` units.
fn round(n: u128, scale: u64) -> (r: u64)
    requires
        n < 0x80_0000_0000_0000_0000_0000_0000_0000,
        scale <= 2045,
    ensures
        r == rounded(n as nat * pow2(scale as nat)),
{
    if n == 0 {
        proof {
            lemma_mul_basics(pow2(scale as nat) as int);
        }
        return 0;
    }
    let highest: u64 = find_highest_bit(n);
    let ghost exact = n as nat * pow2(scale as nat);
    proof {
        lemma_highest_bit_scaled(n as nat, highest as nat, scale as nat);
        lemma2_to64();
        lemma2_to64_rest();
        lemma_pow2_pos(scale as nat);
    }
    if highest + scale < 53 {
        proof {
            if highest + scale + 1 < 53 {
                lemma_pow2_strictly_increases((highest + scale + 1) as nat, 53);
            }
        }
        let factor: u128 = power_of_two(scale);
        return (n * factor) as u64;
    }
    proof {
        if highest + scale > 53 {
            lemma_pow2_strictly_increases(53, (highest + scale) as nat);
        }
    }
    let step: u64 = highest + scale - 52;
    let quotient: u64;
    let up: bool;
    if highest <= 52 {
        let factor: u128 = power_of_two(52 - highest);
        proof {
            lemma_pow2_adds((52 - highest) as nat, step as nat);
            lemma_mul_is_associative(n as int, factor as int, pow2(step as nat) as int);
            lemma_pow2_pos(step as nat);
            lemma_mod_multiples_basic((n * factor) as int, pow2(step as nat) as int);
            lemma_div_by_multiple((n * factor) as int, pow2(step as nat) as int);
            lemma_highest_bit_scaled(n as nat, highest as nat, (52 - highest) as nat);
        }
        quotient = (n * factor) as u64;
        up = false;
    } else {
        let divisor: u128 = power_of_two(highest - 52);
        proof {
            lemma_scaled_parts(n as nat, scale as nat, (highest - 52) as nat);
            assert(scale + (highest - 52) == step);
            lemma_quotient_bound(n as nat, highest as nat);
        }
        quotient = (n / divisor) as u64;
        let remainder: u128 = n % divisor;
        proof {
            lemma_compare_scaled(pow2(scale as nat), remainder as nat, divisor as nat);
            lemma_pow2_strictly_increases((highest - 52) as nat, 120);
            lemma_pow2_adds(64, 56);
            assert(0x1_0000_0000_0000_0000 * 0x100_0000_0000_0000
                == 0x100_0000_0000_0000_0000_0000_0000_0000);
        }
        up = remainder * 2 > divisor || (remainder * 2 == divisor && quotient % 2 == 1);
    }
    let bits: u64 = step * HIDDEN_BIT + quotient + if up { 1 } else { 0 };
    if bits < INFINITY_BITS {
        bits
    } else {
        INFINITY_BITS
    }
}

/// Dividing off all but 53 bits leaves 53 bits.
proof fn lemma_quotient_bound(n: nat, highest: nat)
    requires
        highest > 52,
        pow2(highest) <= n < pow2(highest + 1),
    ensures
        n / pow2((highest - 52) as nat) < 0x20_0000_0000_0000,
{
    let d = pow2((highest - 52) as nat);
    lemma_pow2_pos((highest - 52) as nat);
    lemma_pow2_adds(53, (highest - 52) as nat);
    lemma2_to64_rest();
    lemma_multiply_divide_lt(n as int, d as int, 0x20_0000_0000_0000);
}

/// A common positive factor does not change how twice a remainder compares with a divisor.
proof fn lemma_compare_scaled(factor: nat, remainder: nat, divisor: nat)
    by (nonlinear_arith)
    requires
        factor > 0,
    ensures
        2 * (factor * remainder) > factor * divisor <==> 2 * remainder > divisor,
        2 * (factor * remainder) == factor * divisor <==> 2 * remainder == divisor,
{
}

/// A term below a quarter of the last place, added or taken away, is lost in rounding.
proof fn lemma_absorbed(significand: nat, scale: nat, term: nat)
    requires
        HIDDEN_BIT <= significand < 2 * HIDDEN_BIT,
        scale >= 65,
        term < pow2((scale - 12) as nat),
        scale * HIDDEN_BIT + significand < INFINITY_BITS,
    ensures
        rounded(significand * pow2(scale) + term) == scale * HIDDEN_BIT + significand,
        term < significand * pow2(scale),
        rounded((significand * pow2(scale) - term) as nat) == scale * HIDDEN_BIT + significand,
{
    let p = pow2(scale);
    let half = pow2((scale - 1) as nat);
    let exact = significand * p;
    lemma2_to64();
    lemma2_to64_rest();
    lemma_pow2_unfold(scale);
    lemma_pow2_unfold((scale - 1) as nat);
    lemma_pow2_strictly_increases((scale - 12) as nat, (scale - 2) as nat);
    lemma_pow2_strictly_increases(64, scale);
    lemma_pow2_adds(52, scale);
    lemma_pow2_adds(53, scale);
    lemma_pow2_adds(52, (scale - 1) as nat);
    lemma_pow2_adds(53, (scale - 1) as nat);
    assert(HIDDEN_BIT * p <= exact) by (nonlinear_arith)
        requires
            HIDDEN_BIT <= significand,
            exact == significand * p,
    ;
    assert(exact + p <= 2 * HIDDEN_BIT * p) by (nonlinear_arith)
        requires
            significand + 1 <= 2 * HIDDEN_BIT,
            exact == significand * p,
    ;
    assert(p <= HIDDEN_BIT * p) by (nonlinear_arith)
        requires
            p > 0,
    ;
    let above = exact + term;
    lemma_highest_bit_is(above, 52 + scale);
    lemma_fundamental_div_mod_converse(above as int, p as int, significand as int, term as int);
    assert(rounded(above) == scale * HIDDEN_BIT + significand);
    let below = (exact - term) as nat;
    if term == 0 {
        assert(below == above);
    } else if significand > HIDDEN_BIT {
        assert(HIDDEN_BIT * p + p <= exact) by (nonlinear_arith)
            requires
                HIDDEN_BIT + 1 <= significand,
                exact == significand * p,
        ;
        lemma_highest_bit_is(below, 52 + scale);
        assert((significand - 1) * p + (p - term) == below) by (nonlinear_arith)
            requires
                exact == significand * p,
                below == exact - term,
        ;
        lemma_fundamental_div_mod_converse(
            below as int,
            p as int,
            significand - 1,
            p - term,
        );
    } else {
        assert((2 * HIDDEN_BIT - 1) * half + (half - term) == below) by (nonlinear_arith)
            requires
                exact == HIDDEN_BIT * p,
                p == 2 * half,
                below == exact - term,
        ;
        assert(HIDDEN_BIT * half + half <= exact) by (nonlinear_arith)
            requires
                exact == HIDDEN_BIT * p,
                p == 2 * half,
                HIDDEN_BIT >= 1,
        ;
        lemma_highest_bit_is(below, (51 + scale) as nat);
        lemma_fundamental_div_mod_converse(
            below as int,
            half as int,
            2 * HIDDEN_BIT - 1,
            half - term,
        );
    }
}

impl Number {
    /// The sum of two finite numbers of which the first has the larger scale.
    fn plus_smaller(self, other: Number) -> (r: Number)
        requires
            self.finite(),
            other.finite(),
            scale(other.magnitude_bits()) <= scale(self.magnitude_bits()),
        ensures
            r == self.sum(other),
    {
        let (a, a_scale): (u64, u64) = parts(self.unsigned());
        let (b, b_scale): (u64, u64) = parts(other.unsigned());
        let distance: u64 = a_scale - b_scale;
        proof {
            lemma_parts(self.magnitude_bits());
            lemma_parts(other.magnitude_bits());
            lemma2_to64();
            lemma2_to64_rest();
        }
        if distance > 64 {
            proof {
                lemma_pow2_adds(53, b_scale as nat);
                lemma_pow2_pos(b_scale as nat);
                lemma_mul_strict_inequality(
                    b as int,
                    0x20_0000_0000_0000,
                    pow2(b_scale as nat) as int,
                );
                if 53 + b_scale < a_scale - 12 {
                    lemma_pow2_strictly_increases((53 + b_scale) as nat, (a_scale - 12) as nat);
                }
                lemma_absorbed(a as nat, a_scale as nat, magnitude(other.magnitude_bits()));
            }
            return self;
        }
        let factor: u128 = power_of_two(distance);
        proof {
            if distance < 64 {
                lemma_pow2_strictly_increases(distance as nat, 64);
            }
            assert(a * factor < 0x20_0000_0000_0000 * 0x1_0000_0000_0000_0001) by (nonlinear_arith)
                requires
                    a < 0x20_0000_0000_0000,
                    factor < 0x1_0000_0000_0000_0001,
            ;
        }
        let wide: u128 = a as u128 * factor;
        let narrow: u128 = b as u128;
        let ghost unit = pow2(b_scale as nat);
        proof {
            lemma_pow2_adds(distance as nat, b_scale as nat);
            lemma_mul_is_associative(a as int, factor as int, unit as int);
            assert(magnitude(self.magnitude_bits()) == wide as nat * unit);
            assert(magnitude(other.magnitude_bits()) == narrow as nat * unit);
            lemma_pow2_pos(b_scale as nat);
            lemma_mul_is_distributive_add_other_way(unit as int, wide as int, narrow as int);
            lemma_mul_is_distributive_sub_other_way(unit as int, wide as int, narrow as int);
            lemma_mul_is_distributive_sub_other_way(unit as int, narrow as int, wide as int);
            lemma_mul_basics(unit as int);
            if wide > narrow {
                lemma_mul_strictly_positive(wide - narrow, unit as int);
            } else if narrow > wide {
                lemma_mul_strictly_positive(narrow - wide, unit as int);
            }
            if wide + narrow > 0 {
                lemma_mul_strictly_positive(wide + narrow, unit as int);
            }
        }
        if self.is_negative() == other.is_negative() {
            let bits: u64 = round(wide + narrow, b_scale);
            if self.is_negative() {
                Number { bits: SIGN_BIT + bits }
            } else {
                Number { bits }
            }
        } else if wide == narrow {
            Number { bits: 0 }
        } else if (wide > narrow) == self.is_negative() {
            let bits: u64 = round(if wide > narrow { wide - narrow } else { narrow - wide }, b_scale);
            Number { bits: SIGN_BIT + bits }
        } else {
            let bits: u64 = round(if wide > narrow { wide - narrow } else { narrow - wide }, b_scale);
            Number { bits }
        }
    }

    /// `self + other`.
    pub fn plus(self, other: Number) -> (r: Number)
        ensures
            r == self.sum(other),
    {
        let (a, b): (u64, u64) = (self.unsigned(), other.unsigned());
        if a > INFINITY_BITS || b > INFINITY_BITS {
            Number { bits: NAN_BITS }
        } else if a == INFINITY_BITS {
            if b == INFINITY_BITS && self.bits != other.bits {
                Number { bits: NAN_BITS }
            } else {
                self
            }
        } else if b == INFINITY_BITS {
            other
        } else {
            let (_, a_scale): (u64, u64) = parts(a);
            let (_, b_scale): (u64, u64) = parts(b);
            if b_scale <= a_scale {
                self.plus_smaller(other)
            } else {
                other.plus_smaller(self)
            }
        }
    }

    /// The number with the other sign.
    pub open spec fn opposite(self) -> Number {
        if self.negative() {
            Number { bits: (self.bits - SIGN_BIT) as u64 }
        } else {
            Number { bits: (self.bits + SIGN_BIT) as u64 }
        }
    }

    /// `-self`.
    pub fn negate(self) -> (r: Number)
        ensures
            r == self.opposite(),
    {
        if self.is_negative() {
            Number { bits: self.bits - SIGN_BIT }
        } else {
            Number { bits: self.bits + SIGN_BIT }
        }
    }

    /// The number nearest to an integer. Zero is the positive zero.
    pub open spec fn of_int(n: int) -> Number {
        if n < 0 {
            Number { bits: (SIGN_BIT + rounded((-n) as nat * one())) as u64 }
        } else {
            Number { bits: rounded(n as nat * one()) as u64 }
        }
    }

    /// The number that an integer below `2^53` in magnitude is.
    pub fn from_i64(n: i64) -> (r: Number)
        requires
            -0x20_0000_0000_0000 < n < 0x20_0000_0000_0000,
        ensures
            r == Self::of_int(n as int),
    {
        if n < 0 {
            let bits: u64 = round((-n) as u128, 1074);
            Number { bits: SIGN_BIT + bits }
        } else {
            Number { bits: round(n as u128, 1074) }
        }
    }
}

/// A magnitude that a double has is rounded to itself.
pub proof fn lemma_rounded_exact(bits: nat)
    requires
        bits < INFINITY_BITS,
    ensures
        rounded(magnitude(bits)) == bits,
{
    let (m, s) = (significand(bits), scale(bits));
    lemma_parts(bits);
    lemma2_to64();
    lemma2_to64_rest();
    if s == 0 {
        lemma_mul_basics(m as int);
    } else {
        lemma_highest_bit_scaled(m, 52, s);
        lemma_pow2_pos(s);
        if 52 + s > 53 {
            lemma_pow2_strictly_increases(53, 52 + s);
        }
        lemma_mod_multiples_basic(m as int, pow2(s) as int);
        lemma_div_by_multiple(m as int, pow2(s) as int);
    }
}

/// The integers below `2^53` in magnitude are doubles: none of them is changed by rounding.
pub proof fn law_small_integers_are_exact(n: int)
    requires
        -0x20_0000_0000_0000 < n < 0x20_0000_0000_0000,
    ensures
        Number::of_int(n).finite(),
        Number::of_int(n).units() == n * one(),
        Number::of_int(n).integral(),
        Number::of_int(n).integer_part() == n,
{
    let m = (if n < 0 { -n } else { n }) as nat;
    lemma_pow2_pos(1074);
    lemma_mul_basics(one() as int);
    lemma2_to64();
    lemma2_to64_rest();
    if m == 0 {
        lemma_magnitude_order(0, 0);
        lemma_basic_div(0, one() as int);
    } else {
        lemma_highest_bit(m);
        let h = highest_bit(m);
        if h > 52 {
            if h > 53 {
                lemma_pow2_strictly_increases(53, h);
            }
            assert(false);
        }
        let factor = pow2((52 - h) as nat);
        let m53 = m * factor;
        lemma_highest_bit_scaled(m, h, (52 - h) as nat);
        let bits = ((1022 + h) * HIDDEN_BIT + m53) as nat;
        lemma_fundamental_div_mod_converse(
            bits as int,
            HIDDEN_BIT as int,
            1023 + h as int,
            m53 - HIDDEN_BIT,
        );
        lemma_pow2_adds((52 - h) as nat, 1022 + h);
        lemma_mul_is_associative(m as int, factor as int, pow2(1022 + h) as int);
        assert(magnitude(bits) == m * one());
        lemma_rounded_exact(bits);
        lemma_mul_unary_negation(m as int, one() as int);
        lemma_mod_multiples_basic(m as int, one() as int);
        lemma_div_by_multiple(m as int, one() as int);
    }
}

/// An integer and a finite number compare as the integer and the integer part do, and where those
/// are equal the fractional part decides.
pub proof fn lemma_integer_part_order(integer: int, n: Number)
    requires
        n.finite(),
    ensures
        integer < n.integer_part() ==> integer * one() < n.units(),
        integer > n.integer_part() ==> integer * one() > n.units(),
        integer == n.integer_part() ==> if n.integral() {
            integer * one() == n.units()
        } else if n.negative() {
            integer * one() > n.units()
        } else {
            integer * one() < n.units()
        },
{
    let one = one() as int;
    let m = magnitude(n.magnitude_bits()) as int;
    let (q, r) = (m / one, m % one);
    lemma_pow2_pos(1074);
    lemma_fundamental_div_mod(m, one);
    lemma_mod_bound(m, one);
    lemma_div_pos_is_pos(m, one);
    let part = n.integer_part();
    lemma_mul_is_commutative(one, q);
    lemma_mul_unary_negation(q, one);
    if integer < part {
        lemma_mul_inequality(integer + 1, part, one);
        lemma_mul_is_distributive_add_other_way(one, integer, 1);
    } else if integer > part {
        lemma_mul_inequality(part + 1, integer, one);
        lemma_mul_is_distributive_add_other_way(one, part, 1);
    }
}

/// The quotient that rounding keeps has 53 bits.
proof fn lemma_rounding_quotient(n: nat)
    requires
        n >= 2 * HIDDEN_BIT,
    ensures
        highest_bit(n) >= 53,
        HIDDEN_BIT <= n / pow2((highest_bit(n) - 52) as nat) < 2 * HIDDEN_BIT,
        pow2((highest_bit(n) - 52) as nat) > 0,
{
    let h = highest_bit(n);
    lemma_highest_bit(n);
    lemma2_to64();
    lemma2_to64_rest();
    if h < 53 {
        if h + 1 < 53 {
            lemma_pow2_strictly_increases(h + 1, 53);
        }
    }
    let step = (h - 52) as nat;
    lemma_pow2_pos(step);
    lemma_pow2_adds(52, step);
    lemma_quotient_bound(n, h);
    lemma_div_is_ordered(pow2(h) as int, n as int, pow2(step) as int);
    lemma_div_by_multiple(HIDDEN_BIT as int, pow2(step) as int);
}

/// Rounding keeps the order: a larger amount is never rounded to a smaller double.
pub proof fn law_rounding_is_monotone(a: nat, b: nat)
    requires
        a <= b,
    ensures
        rounded(a) <= rounded(b) <= INFINITY_BITS,
{
    if b >= 2 * HIDDEN_BIT {
        lemma_rounding_quotient(b);
        let (hb, step_b) = (highest_bit(b), (highest_bit(b) - 52) as nat);
        if a >= 2 * HIDDEN_BIT {
            lemma_rounding_quotient(a);
            let (ha, step_a) = (highest_bit(a), (highest_bit(a) - 52) as nat);
            lemma_highest_bit(a);
            lemma_highest_bit(b);
            if ha > hb {
                if hb + 1 < ha {
                    lemma_pow2_strictly_increases(hb + 1, ha);
                }
            }
            if step_a == step_b {
                let p = pow2(step_a) as int;
                lemma_div_is_ordered(a as int, b as int, p);
                lemma_fundamental_div_mod(a as int, p);
                lemma_fundamental_div_mod(b as int, p);
            }
        }
    }
}

/// The magnitude of bits that are put together from a scale and a significand.
proof fn lemma_magnitude_of_parts(scale_bits: nat, significand_bits: nat)
    requires
        HIDDEN_BIT <= significand_bits <= 2 * HIDDEN_BIT,
    ensures
        magnitude(scale_bits * HIDDEN_BIT as nat + significand_bits) == significand_bits * pow2(
            scale_bits,
        ),
{
    let bits = scale_bits * HIDDEN_BIT as nat + significand_bits;
    if significand_bits < 2 * HIDDEN_BIT {
        lemma_fundamental_div_mod_converse(
            bits as int,
            HIDDEN_BIT as int,
            scale_bits as int + 1,
            significand_bits - HIDDEN_BIT,
        );
    } else {
        lemma_fundamental_div_mod_converse(bits as int, HIDDEN_BIT as int, scale_bits as int + 2, 0);
        lemma_pow2_unfold(scale_bits + 1);
        assert(HIDDEN_BIT * pow2(scale_bits + 1) == (2 * HIDDEN_BIT) * pow2(scale_bits))
            by (nonlinear_arith)
            requires
                pow2(scale_bits + 1) == 2 * pow2(scale_bits),
        ;
    }
}

/// Rounding gives the nearest double: no other one is closer.
pub proof fn law_rounding_is_nearest(n: nat, other: nat)
    requires
        rounded(n) < INFINITY_BITS,
        other < INFINITY_BITS,
    ensures
        ({
            let (near, far) = (magnitude(rounded(n)) - n, magnitude(other) - n);
            (if near < 0 { -near } else { near }) <= (if far < 0 { -far } else { far })
        }),
{
    lemma2_to64();
    if n < 2 * HIDDEN_BIT {
        lemma_mul_basics(n as int);
    } else {
        lemma_rounding_quotient(n);
        let step = (highest_bit(n) - 52) as nat;
        let p = pow2(step);
        let quotient = n / p;
        let remainder = n % p;
        let floor = step * HIDDEN_BIT as nat + quotient;
        lemma_fundamental_div_mod(n as int, p as int);
        lemma_mul_is_commutative(p as int, quotient as int);
        lemma_magnitude_of_parts(step, quotient);
        lemma_magnitude_of_parts(step, quotient + 1);
        lemma_mul_is_distributive_add_other_way(p as int, quotient as int, 1);
        if other < floor {
            lemma_magnitude_increases(other, floor);
        } else if other > floor + 1 {
            lemma_magnitude_increases(floor + 1, other);
        }
    }
}

/// A magnitude of `2^53`.
proof fn lemma_two_to_53()
    ensures
        magnitude(0x4340_0000_0000_0000) == pow2(53) * one(),
{
    lemma_pow2_unfold(1075);
    lemma2_to64_rest();
    lemma_pow2_unfold(53);
    assert(0x10_0000_0000_0000 * pow2(1075) == pow2(53) * pow2(1074)) by (nonlinear_arith)
        requires
            pow2(1075) == 2 * pow2(1074),
            pow2(53) == 2 * 0x10_0000_0000_0000,
    ;
}

/// An integer of any size compares with a number below `2^53` in magnitude as the number nearest
/// to the integer does.
pub proof fn law_nearest_number_keeps_order(n: int, other: Number)
    requires
        other.finite(),
        magnitude(other.magnitude_bits()) < pow2(53) * one(),
    ensures
        !Number::of_int(n).nan(),
        Number::of_int(n).less(other) == (n * one() < other.units()),
        other.less(Number::of_int(n)) == (other.units() < n * one()),
        Number::of_int(n).same(other) == (n * one() == other.units()),
{
    let m = (if n < 0 { -n } else { n }) as nat;
    if m < 0x20_0000_0000_0000 {
        law_small_integers_are_exact(n);
    } else {
        let bound = 0x4340_0000_0000_0000nat;
        lemma_two_to_53();
        lemma2_to64_rest();
        lemma_pow2_pos(1074);
        lemma_rounded_exact(bound);
        lemma_mul_inequality(pow2(53) as int, m as int, one() as int);
        law_rounding_is_monotone(pow2(53) * one(), m * one());
        lemma_magnitude_order(bound, Number::of_int(n).magnitude_bits());
        lemma_mul_unary_negation(m as int, one() as int);
    }
}

/// A product with a positive factor is zero just where the other factor is.
proof fn lemma_product_zero(positive: nat, n: nat)
    by (nonlinear_arith)
    requires
        positive > 0,
    ensures
        positive * n == 0 <==> n == 0,
{
}

/// The fields of a double: the highest bit is the sign, eleven bits are the exponent, and the
/// lowest 52 the fraction. The highest exponent is that of the infinities and the NaNs, and the
/// lowest that of the numbers whose significand has no hidden bit.
pub proof fn law_fields_of_numbers(n: Number)
    ensures
        ({
            let exponent = (n.bits / 0x10_0000_0000_0000) % 2048;
            let fraction = n.bits % 0x10_0000_0000_0000;
            let size = if n.units() < 0 {
                -n.units()
            } else {
                n.units()
            };
            &&& n.negative() <==> n.bits / 0x8000_0000_0000_0000 == 1
            &&& n.finite() <==> exponent < 2047
            &&& n.infinite() <==> exponent == 2047 && fraction == 0
            &&& n.nan() <==> exponent == 2047 && fraction != 0
            &&& size == if exponent == 0 {
                fraction as int
            } else {
                (0x10_0000_0000_0000 + fraction) * pow2((exponent - 1) as nat)
            }
            &&& n.units() < 0 ==> n.negative()
            &&& n.units() > 0 ==> !n.negative()
        }),
{
    let m = n.magnitude_bits();
    let sign = n.bits / 0x8000_0000_0000_0000;
    assert(n.bits == sign * 0x8000_0000_0000_0000 + m);
    assert(m / 0x10_0000_0000_0000 == (n.bits / 0x10_0000_0000_0000) % 2048);
    assert(m % 0x10_0000_0000_0000 == (n.bits % 0x10_0000_0000_0000) as nat);
    lemma2_to64();
    lemma_mul_basics(significand(m) as int);
    lemma_pow2_pos(scale(m));
    lemma_product_zero(pow2(scale(m)), significand(m));
    lemma_mul_nonnegative(significand(m) as int, pow2(scale(m)) as int);
}

/// The number one is `2^1074` units of `2^-1074`.
pub proof fn law_one_is_a_number(n: Number)
    requires
        n.bits == 0x3FF0_0000_0000_0000,
    ensures
        n.finite(),
        n.units() == one(),
{
    assert(significand(0x3FF0_0000_0000_0000) == HIDDEN_BIT);
    assert(scale(0x3FF0_0000_0000_0000) == 1022);
    lemma2_to64();
    lemma2_to64_rest();
    lemma_pow2_adds(52, 1022);
}

/// Where two doubles are equally near to an amount, rounding gives the one whose significand is
/// even.
pub proof fn law_ties_are_rounded_to_even(n: nat, other: nat)
    requires
        rounded(n) < INFINITY_BITS,
        other < INFINITY_BITS,
        other != rounded(n),
        ({
            let (near, far) = (magnitude(rounded(n)) - n, magnitude(other) - n);
            (if near < 0 { -near } else { near }) == (if far < 0 { -far } else { far })
        }),
    ensures
        rounded(n) % 2 == 0,
{
    lemma2_to64();
    if n < 2 * HIDDEN_BIT {
        lemma_mul_basics(n as int);
        lemma_magnitude_order(n, other);
    } else {
        lemma_rounding_quotient(n);
        let step = (highest_bit(n) - 52) as nat;
        let p = pow2(step);
        let quotient = n / p;
        let remainder = n % p;
        let floor = step * HIDDEN_BIT as nat + quotient;
        lemma_fundamental_div_mod(n as int, p as int);
        lemma_mod_bound(n as int, p as int);
        lemma_mul_is_commutative(p as int, quotient as int);
        lemma_magnitude_of_parts(step, quotient);
        lemma_magnitude_of_parts(step, quotient + 1);
        lemma_mul_is_distributive_add_other_way(p as int, quotient as int, 1);
        if other < floor {
            lemma_magnitude_increases(other, floor);
        } else if other > floor + 1 {
            lemma_magnitude_increases(floor + 1, other);
        }
        assert(floor % 2 == quotient % 2);
    }
}

/// An amount is rounded to infinity from the middle between the largest double and the power of
/// two above it.
pub proof fn law_large_amounts_are_rounded_to_infinity(n: nat)
    ensures
        rounded(n) == INFINITY_BITS <==> 2 * n >= (0x40_0000_0000_0000 - 1) * pow2(2045),
{
    let p = pow2(2045);
    lemma_pow2_pos(2045);
    lemma2_to64();
    lemma2_to64_rest();
    if n < 2 * HIDDEN_BIT {
        lemma_pow2_adds(54, 1991);
        lemma_pow2_pos(1991);
        lemma_mul_inequality(1, p as int, 0x40_0000_0000_0000 - 1);
        lemma_mul_is_commutative(p as int, 0x40_0000_0000_0000 - 1);
    } else {
        lemma_rounding_quotient(n);
        lemma_highest_bit(n);
        let h = highest_bit(n);
        let step = (h - 52) as nat;
        let quotient = n / pow2(step);
        let remainder = n % pow2(step);
        lemma_fundamental_div_mod(n as int, pow2(step) as int);
        lemma_mod_bound(n as int, pow2(step) as int);
        if step < 2045 {
            if h + 1 < 2097 {
                lemma_pow2_strictly_increases(h + 1, 2097);
            }
            lemma_pow2_adds(52, 2045);
            assert(n < 0x10_0000_0000_0000 * p);
            assert(step * HIDDEN_BIT <= 2044 * HIDDEN_BIT);
            assert(2 * n < (0x40_0000_0000_0000 - 1) * p) by (nonlinear_arith)
                requires
                    n < 0x10_0000_0000_0000 * p,
                    p > 0,
            ;
        } else if step > 2045 {
            if h > 2098 {
                lemma_pow2_strictly_increases(2098, h);
            }
            lemma_pow2_adds(53, 2045);
            assert(n >= 0x20_0000_0000_0000 * p);
            assert(step * HIDDEN_BIT >= 2046 * HIDDEN_BIT);
            assert(2 * n >= (0x40_0000_0000_0000 - 1) * p) by (nonlinear_arith)
                requires
                    n >= 0x20_0000_0000_0000 * p,
                    p > 0,
            ;
        } else {
            assert(n == p * quotient + remainder);
            if quotient < 0x20_0000_0000_0000 - 1 {
                assert(2 * n < (0x40_0000_0000_0000 - 1) * p) by (nonlinear_arith)
                    requires
                        n == p * quotient + remainder,
                        remainder < p,
                        quotient < 0x20_0000_0000_0000 - 1,
                        p > 0,
                ;
            } else {
                assert(2 * n - (0x40_0000_0000_0000 - 1) * p == 2 * remainder - p)
                    by (nonlinear_arith)
                    requires
                        n == p * quotient + remainder,
                        quotient == 0x20_0000_0000_0000 - 1,
                ;
            }
        }
    }
}

/// The distance between two amounts.
pub open spec fn distance(a: int, b: int) -> int {
    if a < b {
        b - a
    } else {
        a - b
    }
}

/// The sum of two finite numbers is the finite number nearest to the exact sum, the one with the
/// even significand where two are equally near. It is infinite just where the exact sum lies in
/// the middle between the largest number and the power of two above it, or beyond. It has the sign
/// of the exact sum, and a sum of zero is negative just where both terms are.
pub proof fn law_sum_is_the_nearest_number(a: Number, b: Number, other: Number)
    requires
        a.finite(),
        b.finite(),
        other.finite(),
    ensures
        ({
            let exact = a.units() + b.units();
            let sum = a.sum(b);
            &&& !sum.nan()
            &&& sum.infinite() <==> 2 * distance(exact, 0) >= (0x40_0000_0000_0000 - 1) * pow2(2045)
            &&& sum.finite() ==> distance(sum.units(), exact) <= distance(other.units(), exact)
            &&& sum.finite() && sum.units() != other.units() && distance(sum.units(), exact)
                == distance(other.units(), exact) ==> sum.bits % 2 == 0
            &&& exact > 0 ==> !sum.negative()
            &&& exact < 0 ==> sum.negative()
            &&& exact == 0 ==> sum.negative() == (a.negative() && b.negative()) && sum.finite()
                && sum.units() == 0
        }),
{
    let exact = a.units() + b.units();
    let size = distance(exact, 0) as nat;
    let sum = a.sum(b);
    law_rounding_is_monotone(size, size);
    law_large_amounts_are_rounded_to_infinity(size);
    lemma_magnitude_order(0, 0);
    lemma2_to64();
    assert(exact == 0 ==> sum.magnitude_bits() == 0);
    assert(exact != 0 ==> sum.magnitude_bits() == rounded(size));
    if rounded(size) < INFINITY_BITS {
        law_rounding_is_nearest(size, other.magnitude_bits());
        law_rounding_is_nearest(size, 0);
        if other.magnitude_bits() != rounded(size) && distance(
            magnitude(rounded(size)) as int,
            size as int,
        ) == distance(magnitude(other.magnitude_bits()) as int, size as int) {
            law_ties_are_rounded_to_even(size, other.magnitude_bits());
        }
        if rounded(size) != 0 && distance(magnitude(rounded(size)) as int, size as int)
            == distance(0, size as int) {
            law_ties_are_rounded_to_even(size, 0);
        }
    }
}

/// The sum with a NaN, and that of both infinities, is a NaN. Any other sum with an infinity is
/// that infinity.
pub proof fn law_sum_with_infinities(a: Number, b: Number)
    ensures
        a.sum(b).nan() <==> a.nan() || b.nan() || (a.infinite() && b.infinite() && a.negative()
            != b.negative()),
        a.infinite() && !a.sum(b).nan() ==> a.sum(b) == a,
        b.infinite() && !a.sum(b).nan() ==> a.sum(b) == b,
{
    if a.finite() && b.finite() {
        law_sum_is_the_nearest_number(a, b, a);
    }
}

/// The number with the other sign is the opposite amount, and its opposite is the number again.
pub proof fn law_opposite_changes_the_sign(n: Number)
    ensures
        n.opposite().negative() != n.negative(),
        n.opposite().units() == -n.units(),
        n.opposite().finite() == n.finite(),
        n.opposite().nan() == n.nan(),
        n.opposite().opposite() == n,
        n.finite() ==> n.sum(n.opposite()).finite() && n.sum(n.opposite()).units() == 0,
{
    assert(n.opposite().magnitude_bits() == n.magnitude_bits());
    if n.finite() {
        law_sum_is_the_nearest_number(n, n.opposite(), n);
    }
}

/// Of two numbers that are no NaN just one is below the other, or they are the same. Finite ones
/// are ordered as their amounts, between the infinities. A NaN is below nothing, above nothing and
/// the same as nothing.
pub proof fn law_numbers_are_ordered(a: Number, b: Number, c: Number)
    ensures
        a.nan() || b.nan() ==> !a.less(b) && !a.same(b),
        !a.nan() && !b.nan() ==> {
            ||| a.less(b) && !b.less(a) && !a.same(b)
            ||| !a.less(b) && b.less(a) && !a.same(b)
            ||| !a.less(b) && !b.less(a) && a.same(b)
        },
        a.finite() && b.finite() ==> a.less(b) == (a.units() < b.units()) && a.same(b) == (a.units()
            == b.units()),
        a.infinite() && a.negative() && !b.nan() ==> !b.less(a) && (b.finite() ==> a.less(b)),
        a.infinite() && !a.negative() && !b.nan() ==> !a.less(b) && (b.finite() ==> b.less(a)),
        a.less(b) && b.less(c) ==> a.less(c),
        a.same(b) == b.same(a),
{
}

/// The integer part of a finite number is the number with what stands behind the point cut off.
pub proof fn law_integer_part_cuts_off(n: Number)
    ensures
        !n.finite() ==> n.integer_part() == 0,
        n.finite() && n.units() >= 0 ==> n.integer_part() * one() <= n.units() < (n.integer_part()
            + 1) * one(),
        n.finite() && n.units() < 0 ==> (n.integer_part() - 1) * one() < n.units()
            <= n.integer_part() * one(),
        n.integral() <==> n.finite() && n.units() == n.integer_part() * one(),
{
    if n.finite() {
        lemma_integer_part_order(n.integer_part(), n);
        lemma_integer_part_order(n.integer_part() + 1, n);
        lemma_integer_part_order(n.integer_part() - 1, n);
        let m = magnitude(n.magnitude_bits()) as int;
        lemma_pow2_pos(1074);
        lemma_div_pos_is_pos(m, one() as int);
        lemma_mul_basics(one() as int);
    }
}

/// The 32-bit integer of the lowest bits is the one that is congruent to the integer part modulo
/// `2^32`.
pub proof fn law_lowest_bits_are_congruent(n: Number)
    ensures
        -0x8000_0000 <= n.low_int32() < 0x8000_0000,
        (n.integer_part() - n.low_int32()) % 0x1_0000_0000 == 0,
{
    let shifted = n.integer_part() + 0x8000_0000;
    lemma_fundamental_div_mod(shifted, 0x1_0000_0000);
    lemma_mod_multiples_basic(shifted / 0x1_0000_0000, 0x1_0000_0000);
}

/// The number of an integer is the finite number nearest to it, the one with the even significand
/// where two are equally near; it is not negative where the integer is not.
pub proof fn law_number_of_an_integer_is_nearest(n: int, other: Number)
    requires
        other.finite(),
    ensures
        ({
            let number = Number::of_int(n);
            let exact = n * one();
            &&& !number.nan()
            &&& number.infinite() <==> 2 * distance(exact, 0) >= (0x40_0000_0000_0000 - 1) * pow2(
                2045,
            )
            &&& number.finite() ==> distance(number.units(), exact) <= distance(
                other.units(),
                exact,
            )
            &&& number.finite() && number.units() != other.units() && distance(
                number.units(),
                exact,
            ) == distance(other.units(), exact) ==> number.bits % 2 == 0
            &&& number.negative() <==> n < 0
        }),
{
    let m = (if n < 0 { -n } else { n }) as nat;
    let size = m * one();
    let number = Number::of_int(n);
    lemma_mul_unary_negation(m as int, one() as int);
    lemma_mul_nonnegative(m as int, one() as int);
    assert(n * one() == if n < 0 { -(size as int) } else { size as int });
    law_rounding_is_monotone(size, size);
    law_large_amounts_are_rounded_to_infinity(size);
    lemma_magnitude_order(0, 0);
    if rounded(size) < INFINITY_BITS {
        law_rounding_is_nearest(size, other.magnitude_bits());
        law_rounding_is_nearest(size, 0);
        if other.magnitude_bits() != rounded(size) && distance(
            magnitude(rounded(size)) as int,
            size as int,
        ) == distance(magnitude(other.magnitude_bits()) as int, size as int) {
            law_ties_are_rounded_to_even(size, other.magnitude_bits());
        }
        if rounded(size) != 0 && distance(magnitude(rounded(size)) as int, size as int)
            == distance(0, size as int) {
            law_ties_are_rounded_to_even(size, 0);
        }
    }
}

} // verus!
