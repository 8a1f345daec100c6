//! Token values: exact sign/magnitude fixed-point numbers.
//!
//! A value is a sign together with a magnitude counted in steps of
//! `1/SCALE`; the quantity denoted is `mag / SCALE`, negated when `neg`
//! is set.  Every operation of the instruction set (increment, decrement,
//! doubling, halving, negation, clamping, rounding, parity) is exact at
//! this resolution; magnitudes saturate at `u128::MAX`.

use vstd::prelude::*;
use vstd::arithmetic::mul::lemma_mul_inequality;

verus! {

/// Number of magnitude steps in one unit (2^64).
pub const SCALE: u128 = 18446744073709551616;

/// Number of magnitude steps in two units (2^65).
pub const TWO_SCALE: u128 = 36893488147419103232;

/// A token value: `mag / SCALE`, negated when `neg` is set.
/// Canonical form (see `wf`) never pairs a zero magnitude with `neg`.
#[derive(Clone, Copy, Debug, PartialEq, Eq, Structural)]
pub struct Value {
    pub neg: bool,
    pub mag: u128,
}

/// The canonical representation of the signed magnitude `x`
/// (meaningful for `-u128::MAX <= x <= u128::MAX`).
pub open spec fn val_of_int(x: int) -> Value {
    if x < 0 {
        Value { neg: true, mag: (-x) as u128 }
    } else {
        Value { neg: false, mag: x as u128 }
    }
}

/// Saturation of a signed magnitude to the representable range.
pub open spec fn clip(x: int) -> int {
    if x > u128::MAX as int {
        u128::MAX as int
    } else if x < -(u128::MAX as int) {
        -(u128::MAX as int)
    } else {
        x
    }
}

/// Result of the negation instruction: zero has no sign to flip and
/// becomes one unit; every other value is negated.
pub open spec fn bang_spec(x: int) -> int {
    if x == 0 {
        SCALE as int
    } else {
        -x
    }
}

/// Halving with truncation toward zero.
pub open spec fn half_spec(x: int) -> int {
    if x >= 0 {
        x / 2
    } else {
        -((-x) / 2)
    }
}

/// Clamp to the closed interval from zero to one unit.
pub open spec fn clamp01_spec(x: int) -> int {
    if x < 0 {
        0
    } else if x > SCALE as int {
        SCALE as int
    } else {
        x
    }
}

/// Rounding up to a whole number of units: away from zero for positive
/// values, toward zero for negative ones.
pub open spec fn ceil_spec(x: int) -> int {
    if x >= 0 {
        if x % (SCALE as int) == 0 {
            x
        } else {
            (x / (SCALE as int) + 1) * (SCALE as int)
        }
    } else {
        -(((-x) / (SCALE as int)) * (SCALE as int))
    }
}

/// Rounding down to a whole number of units: toward zero for positive
/// values, away from zero for negative ones.
pub open spec fn floor_spec(x: int) -> int {
    if x >= 0 {
        (x / (SCALE as int)) * (SCALE as int)
    } else {
        if (-x) % (SCALE as int) == 0 {
            x
        } else {
            -(((-x) / (SCALE as int) + 1) * (SCALE as int))
        }
    }
}

/// Fractional part, carrying the sign of the value.
pub open spec fn fract_spec(x: int) -> int {
    if x >= 0 {
        x % (SCALE as int)
    } else {
        -((-x) % (SCALE as int))
    }
}

/// Whether the value is an even whole number of units.
pub open spec fn is_even_spec(x: int) -> bool {
    if x >= 0 {
        x % (TWO_SCALE as int) == 0
    } else {
        (-x) % (TWO_SCALE as int) == 0
    }
}

/// Whole units of the absolute value, reduced modulo ten.
pub open spec fn digit_spec(x: int) -> int {
    if x >= 0 {
        (x / (SCALE as int)) % 10
    } else {
        ((-x) / (SCALE as int)) % 10
    }
}

impl Value {
    /// Canonical form: zero is never negative.
    pub open spec fn wf(self) -> bool {
        !(self.neg && self.mag == 0)
    }

    /// The signed magnitude this value denotes, in steps of `1/SCALE`.
    pub open spec fn as_int(self) -> int {
        if self.neg {
            -(self.mag as int)
        } else {
            self.mag as int
        }
    }

    /// Build a value from a sign and a magnitude, canonicalizing zero.
    pub fn from_parts(neg: bool, mag: u128) -> (r: Value)
        ensures
            r.wf(),
            r.as_int() == if neg { -(mag as int) } else { mag as int },
    {
        Value { neg: neg && mag > 0, mag }
    }

    /// The zero value.
    pub fn zero() -> (r: Value)
        ensures
            r.wf(),
            r.as_int() == 0,
    {
        Value { neg: false, mag: 0 }
    }

    /// A whole number of units with the given sign.
    pub fn from_units(units: u64, neg: bool) -> (r: Value)
        ensures
            r.wf(),
            r.as_int() == if neg {
                -(units as int * SCALE as int)
            } else {
                units as int * SCALE as int
            },
    {
        proof {
            lemma_mul_inequality(units as int, u64::MAX as int, SCALE as int);
        }
        Value::from_parts(neg, (units as u128) * SCALE)
    }

    /// Sum of two values, saturating at the representation bound.
    pub fn add(self, other: Value) -> (r: Value)
        requires
            self.wf(),
            other.wf(),
        ensures
            r == val_of_int(clip(self.as_int() + other.as_int())),
    {
        if self.neg == other.neg {
            Value::from_parts(self.neg, sat_add_mag(self.mag, other.mag))
        } else if self.mag >= other.mag {
            Value::from_parts(self.neg, self.mag - other.mag)
        } else {
            Value::from_parts(other.neg, other.mag - self.mag)
        }
    }

    /// The value one unit greater, saturating.
    pub fn inc(self) -> (r: Value)
        requires
            self.wf(),
        ensures
            r == val_of_int(clip(self.as_int() + SCALE as int)),
    {
        self.add(Value { neg: false, mag: SCALE })
    }

    /// The value one unit smaller, saturating.
    pub fn dec(self) -> (r: Value)
        requires
            self.wf(),
        ensures
            r == val_of_int(clip(self.as_int() - SCALE as int)),
    {
        self.add(Value { neg: true, mag: SCALE })
    }

    /// The doubled value, saturating.
    pub fn dbl(self) -> (r: Value)
        requires
            self.wf(),
        ensures
            r == val_of_int(clip(2 * self.as_int())),
    {
        if self.mag <= u128::MAX / 2 {
            Value::from_parts(self.neg, 2 * self.mag)
        } else {
            Value::from_parts(self.neg, u128::MAX)
        }
    }

    /// Half the value, truncated toward zero; always exact in range.
    pub fn halve(self) -> (r: Value)
        requires
            self.wf(),
        ensures
            r == val_of_int(half_spec(self.as_int())),
    {
        Value::from_parts(self.neg, self.mag / 2)
    }

    /// The negation instruction: zero becomes one unit, anything else
    /// flips its sign.
    pub fn bang(self) -> (r: Value)
        requires
            self.wf(),
        ensures
            r == val_of_int(bang_spec(self.as_int())),
    {
        if self.mag == 0 {
            Value { neg: false, mag: SCALE }
        } else {
            Value { neg: !self.neg, mag: self.mag }
        }
    }

    /// Clamp to the closed interval from zero to one unit.
    pub fn clamp01(self) -> (r: Value)
        requires
            self.wf(),
        ensures
            r == val_of_int(clamp01_spec(self.as_int())),
    {
        if self.neg {
            Value { neg: false, mag: 0 }
        } else if self.mag > SCALE {
            Value { neg: false, mag: SCALE }
        } else {
            self
        }
    }

    /// Whether the value is zero.
    pub fn is_zero(self) -> (r: bool)
        ensures
            r == (self.as_int() == 0),
    {
        self.mag == 0
    }

    /// Whether the value is strictly negative.
    pub fn is_negative(self) -> (r: bool)
        requires
            self.wf(),
        ensures
            r == (self.as_int() < 0),
    {
        self.neg
    }

    /// Whether the value is an even whole number of units.
    pub fn is_even_int(self) -> (r: bool)
        ensures
            r == is_even_spec(self.as_int()),
    {
        self.mag % TWO_SCALE == 0
    }

    /// Strict order on the denoted quantities.
    pub fn gt(self, other: Value) -> (r: bool)
        requires
            self.wf(),
            other.wf(),
        ensures
            r == (self.as_int() > other.as_int()),
    {
        if self.neg {
            other.neg && self.mag < other.mag
        } else if other.neg {
            self.mag > 0 || other.mag > 0
        } else {
            self.mag > other.mag
        }
    }

    /// Round up to a whole number of units, saturating.
    pub fn ceil_val(self) -> (r: Value)
        requires
            self.wf(),
        ensures
            r == val_of_int(clip(ceil_spec(self.as_int()))),
    {
        let q = self.mag / SCALE;
        let rem = self.mag % SCALE;
        proof {
            vstd::arithmetic::div_mod::lemma_fundamental_div_mod(
                self.mag as int,
                SCALE as int,
            );
            if q as int + 1 <= u128::MAX as int / SCALE as int {
                lemma_mul_inequality(
                    q as int + 1,
                    u128::MAX as int / SCALE as int,
                    SCALE as int,
                );
            }
        }
        if self.neg {
            Value::from_parts(true, q * SCALE)
        } else if rem == 0 {
            self
        } else if q >= u128::MAX / SCALE {
            Value { neg: false, mag: u128::MAX }
        } else {
            Value::from_parts(false, (q + 1) * SCALE)
        }
    }

    /// Round down to a whole number of units, saturating.
    pub fn floor_val(self) -> (r: Value)
        requires
            self.wf(),
        ensures
            r == val_of_int(clip(floor_spec(self.as_int()))),
    {
        let q = self.mag / SCALE;
        let rem = self.mag % SCALE;
        proof {
            vstd::arithmetic::div_mod::lemma_fundamental_div_mod(
                self.mag as int,
                SCALE as int,
            );
            if q as int + 1 <= u128::MAX as int / SCALE as int {
                lemma_mul_inequality(
                    q as int + 1,
                    u128::MAX as int / SCALE as int,
                    SCALE as int,
                );
            }
        }
        if !self.neg {
            Value::from_parts(false, q * SCALE)
        } else if rem == 0 {
            self
        } else if q >= u128::MAX / SCALE {
            Value { neg: true, mag: u128::MAX }
        } else {
            Value::from_parts(true, (q + 1) * SCALE)
        }
    }

    /// Fractional part, carrying the sign of the value.
    pub fn fract_val(self) -> (r: Value)
        requires
            self.wf(),
        ensures
            r == val_of_int(fract_spec(self.as_int())),
    {
        Value::from_parts(self.neg, self.mag % SCALE)
    }

    /// Whole units of the absolute value, reduced modulo ten.
    pub fn units_digit(self) -> (r: u8)
        ensures
            r as int == digit_spec(self.as_int()),
    {
        ((self.mag / SCALE) % 10) as u8
    }

    /// The digit glyph a rendered frame shows for this value.
    pub fn digit_char(self) -> (r: char)
        ensures
            r == digit_char_spec(self),
    {
        (48u8 + self.units_digit()) as char
    }
}

/// Digit glyph of a value: its whole units modulo ten.
pub open spec fn digit_char_spec(v: Value) -> char {
    (48 + digit_spec(v.as_int())) as char
}

/// Magnitude addition, saturating at `u128::MAX`.
fn sat_add_mag(a: u128, b: u128) -> (r: u128)
    ensures
        r as int == if a as int + b as int <= u128::MAX as int {
            a as int + b as int
        } else {
            u128::MAX as int
        },
{
    if a <= u128::MAX - b {
        a + b
    } else {
        u128::MAX
    }
}


/// A canonical value is determined by the quantity it denotes.
pub proof fn lemma_val_canonical(v: Value)
    requires
        v.wf(),
    ensures
        val_of_int(v.as_int()) == v,
{
}

/// The negation instruction on quantities: zero becomes one unit,
/// anything else is negated, and negating twice restores every
/// nonzero value.
pub proof fn lemma_bang_rules(x: int)
    requires
        -(u128::MAX as int) <= x <= u128::MAX as int,
    ensures
        bang_spec(0) == SCALE as int,
        x != 0 ==> bang_spec(x) == -x,
        x != 0 ==> bang_spec(bang_spec(x)) == x,
{
}

/// The negation instruction is an involution away from zero: applied
/// twice to a nonzero canonical value it restores the value exactly.
pub proof fn lemma_bang_involution(v: Value)
    requires
        v.wf(),
        v.as_int() != 0,
    ensures
        val_of_int(bang_spec(bang_spec(v.as_int()))) == v,
{
    lemma_val_canonical(v);
}

} // verus!

