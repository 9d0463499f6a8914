//! The numeric literal model.
//!
//! A number is stored as the smallest representation that holds the
//! literal exactly: a 128-bit integer for integer literals, or the bit
//! pattern of an IEEE binary32 or binary64 value for the rest. Floating
//! point values are carried as their bit patterns, and every operation on
//! them here is integer arithmetic over those bits.

use vstd::prelude::*;

use crate::chars::{chars_to_string, str_to_chars, vec_range};
use vstd::arithmetic::power2::{
    lemma_pow2_adds, lemma_pow2_pos, lemma_pow2_strictly_increases, pow2,
};

verus! {

/// A number: an integer, or a floating point value carried as its IEEE
/// bit pattern.
#[derive(Debug, Clone, Copy)]
pub enum Number {
    /// A signed 128-bit integer.
    I128(i128),
    /// An unsigned 128-bit integer.
    U128(u128),
    /// The bit pattern of an IEEE binary32 value.
    F32Bits(u32),
    /// The bit pattern of an IEEE binary64 value.
    F64Bits(u64),
}

/// The sign bit of a binary64 pattern.
pub open spec fn spec_f64_sign(b: u64) -> bool {
    b / 0x8000_0000_0000_0000 == 1
}

/// The exponent field of a binary64 pattern.
pub open spec fn spec_f64_exp(b: u64) -> u64 {
    ((b / 0x10_0000_0000_0000) % 0x800) as u64
}

/// The fraction field of a binary64 pattern.
pub open spec fn spec_f64_frac(b: u64) -> u64 {
    (b % 0x10_0000_0000_0000) as u64
}

/// Whether the pattern is a NaN.
pub open spec fn spec_f64_is_nan(b: u64) -> bool {
    spec_f64_exp(b) == 0x7FF && spec_f64_frac(b) != 0
}

/// Whether the pattern is one of the two infinities.
pub open spec fn spec_f64_is_inf(b: u64) -> bool {
    spec_f64_exp(b) == 0x7FF && spec_f64_frac(b) == 0
}

/// Whether the pattern is one of the two zeros.
pub open spec fn spec_f64_is_zero(b: u64) -> bool {
    spec_f64_exp(b) == 0 && spec_f64_frac(b) == 0
}

/// The integer a binary64 pattern stands for exactly, if there is one:
/// `Some(v)` exactly when the value is finite and integral (both zeros
/// stand for zero).
pub open spec fn spec_f64_integer(b: u64) -> Option<int> {
    let e = spec_f64_exp(b) as int;
    let m = spec_f64_frac(b) as int;
    let sign: int = if spec_f64_sign(b) {
        -1
    } else {
        1
    };
    if e == 0x7FF {
        // Infinity or NaN.
        None
    } else if e == 0 {
        // Zero, or a subnormal with magnitude below one.
        if m == 0 {
            Some(0)
        } else {
            None
        }
    } else {
        let exp = e - 1023;
        if exp < 0 {
            // Magnitude in (0, 1).
            None
        } else if exp >= 52 {
            Some(sign * (pow2(52) + m) * pow2((exp - 52) as nat))
        } else if m % (pow2((52 - exp) as nat) as int) == 0 {
            Some(sign * ((pow2(52) + m) / pow2((52 - exp) as nat) as int))
        } else {
            None
        }
    }
}

/// The position of the highest set bit.
pub open spec fn spec_log2(m: nat) -> nat
    decreases m,
{
    if m < 2 {
        0
    } else {
        1 + spec_log2(m / 2)
    }
}

/// The binary64 pattern with the same value as a binary32 pattern.
/// Widening is exact: sign, value class and NaN payload are preserved.
pub open spec fn spec_f32_widen(b: u32) -> u64 {
    let s: int = if b / 0x8000_0000 == 1 {
        1
    } else {
        0
    };
    let e = ((b / 0x80_0000) % 0x100) as int;
    let m = (b % 0x80_0000) as int;
    if e == 0xFF {
        // Infinity or NaN: the payload moves up to the wider fraction.
        (s * 0x8000_0000_0000_0000 + 0x7FF * 0x10_0000_0000_0000 + m * 0x2000_0000) as u64
    } else if e == 0 {
        if m == 0 {
            (s * 0x8000_0000_0000_0000) as u64
        } else {
            // A subnormal: normalize it into the wider exponent range.
            let t = spec_log2(m as nat) as int;
            (s * 0x8000_0000_0000_0000 + (t + 874) * 0x10_0000_0000_0000 + (m - pow2(t as nat))
                * pow2((52 - t) as nat)) as u64
        }
    } else {
        (s * 0x8000_0000_0000_0000 + (e + 896) * 0x10_0000_0000_0000 + m * 0x2000_0000) as u64
    }
}

/// The binary64 pattern a number's floating point value widens to;
/// nothing for integers.
pub open spec fn spec_wide_bits(n: Number) -> Option<u64> {
    match n {
        Number::I128(_) => None,
        Number::U128(_) => None,
        Number::F32Bits(b) => Some(spec_f32_widen(b)),
        Number::F64Bits(b) => Some(spec_f64_widen_id(b)),
    }
}

/// A binary64 pattern widens to itself.
pub open spec fn spec_f64_widen_id(b: u64) -> u64 {
    b
}

/// The value a number stands for when it is exactly a signed 128-bit
/// integer.
pub open spec fn spec_as_i128(n: Number) -> Option<int> {
    match n {
        Number::I128(v) => Some(v as int),
        Number::U128(v) => if v <= i128::MAX {
            Some(v as int)
        } else {
            None
        },
        Number::F32Bits(_) | Number::F64Bits(_) => match spec_f64_integer(
            spec_wide_bits(n)->0,
        ) {
            Some(v) => if i128::MIN <= v <= i128::MAX {
                Some(v)
            } else {
                None
            },
            None => None,
        },
    }
}

/// The value a number stands for when it is exactly an unsigned 128-bit
/// integer.
pub open spec fn spec_as_u128(n: Number) -> Option<int> {
    match n {
        Number::I128(v) => if v >= 0 {
            Some(v as int)
        } else {
            None
        },
        Number::U128(v) => Some(v as int),
        Number::F32Bits(_) | Number::F64Bits(_) => match spec_f64_integer(
            spec_wide_bits(n)->0,
        ) {
            Some(v) => if 0 <= v <= u128::MAX {
                Some(v)
            } else {
                None
            },
            None => None,
        },
    }
}

/// The value a number stands for when it is exactly a signed 64-bit
/// integer.
pub open spec fn spec_as_i64(n: Number) -> Option<int> {
    match spec_as_i128(n) {
        Some(v) => if i64::MIN <= v <= i64::MAX {
            Some(v)
        } else {
            None
        },
        None => None,
    }
}

/// The value a number stands for when it is exactly an unsigned 64-bit
/// integer.
pub open spec fn spec_as_u64(n: Number) -> Option<int> {
    match spec_as_u128(n) {
        Some(v) => if v <= u64::MAX {
            Some(v)
        } else {
            None
        },
        None => None,
    }
}

/// Cross-representation equality: integers compare exactly; two floating
/// point values compare as values, except that any two NaNs are equal
/// (the format has a single canonical `+nan`); an integer equals a
/// floating point value only when that value is exactly the same
/// integer.
pub open spec fn spec_num_eq(a: Number, b: Number) -> bool {
    if spec_as_i128(a) is Some && spec_as_i128(b) is Some {
        spec_as_i128(a)->0 == spec_as_i128(b)->0
    } else if spec_as_u128(a) is Some && spec_as_u128(b) is Some {
        spec_as_u128(a)->0 == spec_as_u128(b)->0
    } else if spec_wide_bits(a) is Some && spec_wide_bits(b) is Some {
        let x = spec_wide_bits(a)->0;
        let y = spec_wide_bits(b)->0;
        (spec_f64_is_nan(x) && spec_f64_is_nan(y)) || (spec_f64_is_zero(x) && spec_f64_is_zero(
            y,
        )) || x == y
    } else {
        false
    }
}

/// The number with the opposite sign, if it is representable: negating
/// flips a float's sign bit, turns an unsigned integer into a signed
/// one, and fails only when the signed range cannot hold the result.
pub open spec fn spec_try_negate(n: Number) -> Option<Number> {
    match n {
        Number::I128(v) => if v == i128::MIN {
            None
        } else {
            Some(Number::I128((-v) as i128))
        },
        Number::U128(v) => if v <= i128::MAX {
            Some(Number::I128((-(v as int)) as i128))
        } else {
            None
        },
        Number::F32Bits(b) => Some(
            Number::F32Bits(
                if b >= 0x8000_0000 {
                    (b - 0x8000_0000) as u32
                } else {
                    (b + 0x8000_0000) as u32
                },
            ),
        ),
        Number::F64Bits(b) => Some(
            Number::F64Bits(
                if b >= 0x8000_0000_0000_0000 {
                    (b - 0x8000_0000_0000_0000) as u64
                } else {
                    (b + 0x8000_0000_0000_0000) as u64
                },
            ),
        ),
    }
}

/// The binary64 pattern with the same value as the binary32 pattern
/// `b`.
fn widen_f32_bits(b: u32) -> (r: u64)
    ensures
        r == spec_f32_widen(b),
{
    let s: u64 = if b >= 0x8000_0000 {
        1
    } else {
        0
    };
    let e: u64 = ((b / 0x80_0000) % 0x100) as u64;
    let m: u64 = (b % 0x80_0000) as u64;
    if e == 0xFF {
        // Infinity or NaN.
        s * 0x8000_0000_0000_0000 + 0x7FF * 0x10_0000_0000_0000 + m * 0x2000_0000
    } else if e == 0 {
        if m == 0 {
            s * 0x8000_0000_0000_0000
        } else {
            // A subnormal: find the highest set bit and normalize.
            let mut t: u64 = 0;
            let mut x: u64 = m;
            proof {
                vstd::arithmetic::power2::lemma2_to64();
            }
            while x >= 2
                invariant
                    1 <= x,
                    x < 0x80_0000,
                    m < 0x80_0000,
                    t <= 22,
                    spec_log2(m as nat) == t + spec_log2(x as nat),
                    x * pow2(t as nat) <= m < (x + 1) * pow2(t as nat),
                decreases x,
            {
                proof {
                    lemma_pow2_adds(t as nat, 1);
                    vstd::arithmetic::power2::lemma2_to64();
                    assert((x / 2) * pow2(t as nat + 1) <= x * pow2(t as nat) && (x + 1) * pow2(
                        t as nat,
                    ) <= ((x / 2) + 1) * pow2(t as nat + 1)) by (nonlinear_arith)
                        requires
                            x >= 2,
                            pow2(t as nat + 1) == 2 * pow2(t as nat),
                            pow2(t as nat) >= 1,
                    ;
                    if t + 1 > 22 {
                        lemma_pow2_adds(22, 1);
                        vstd::arithmetic::power2::lemma2_to64();
                        assert(x / 2 >= 1);
                        assert((x / 2) * pow2(23) >= pow2(23)) by (nonlinear_arith)
                            requires
                                x / 2 >= 1,
                                pow2(23) >= 1,
                        ;
                    }
                }
                x = x / 2;
                t = t + 1;
            }
            // Now `pow2(t) <= m < 2 * pow2(t)`.
            let ghost tn = t as nat;
            proof {
                assert(x == 1);
                assert(spec_log2(m as nat) == t);
                lemma_pow2_adds(tn, (52 - tn) as nat);
                vstd::arithmetic::power2::lemma2_to64();
                vstd::arithmetic::power2::lemma2_to64_rest();
            }
            let p = pow2_u64(t as usize);
            let q = pow2_u64((52 - t) as usize);
            proof {
                lemma_pow2_pos(tn);
                lemma_pow2_pos((52 - tn) as nat);
                assert(m < 2 * p);
                assert((m - p) * q < pow2(52)) by (nonlinear_arith)
                    requires
                        p == pow2(tn),
                        q == pow2((52 - tn) as nat),
                        q >= 1,
                        pow2(tn) * pow2((52 - tn) as nat) == pow2(52),
                        0 <= m - p < p,
                ;
            }
            s * 0x8000_0000_0000_0000 + (t + 874) * 0x10_0000_0000_0000 + (m - p) * q
        }
    } else {
        s * 0x8000_0000_0000_0000 + (e + 896) * 0x10_0000_0000_0000 + m * 0x2000_0000
    }
}

/// The sign and magnitude of the integer a binary64 pattern stands for,
/// when there is one and the magnitude fits 128 bits.
fn f64_bits_magnitude(b: u64) -> (r: Option<(bool, u128)>)
    ensures
        r matches Some((sg, mag)) ==> spec_f64_integer(b) == Some(
            if sg {
                -(mag as int)
            } else {
                mag as int
            },
        ),
        r is None ==> match spec_f64_integer(b) {
            Some(v) => v > u128::MAX || v < -(u128::MAX as int),
            None => true,
        },
{
    let e: u64 = (b / 0x10_0000_0000_0000) % 0x800;
    let m: u64 = b % 0x10_0000_0000_0000;
    let sg = b >= 0x8000_0000_0000_0000;
    if e == 0x7FF {
        // Infinity or NaN.
        None
    } else if e == 0 {
        // Zero, or a subnormal with magnitude below one.
        if m == 0 {
            Some((sg, 0))
        } else {
            None
        }
    } else if e < 1023 {
        // Magnitude in (0, 1).
        None
    } else if e >= 1023 + 52 {
        let exp = e - 1023;
        if exp > 127 {
            // The magnitude is at least 2^128.
            proof {
                lemma_pow2_adds(52, (exp - 52) as nat);
                lemma_pow2_pos((exp - 52) as nat);
                if exp > 128 {
                    lemma_pow2_strictly_increases(128, exp as nat);
                }
                lemma_pow2_adds(64, 64);
                vstd::arithmetic::power2::lemma2_to64_rest();
                assert((pow2(52) + m) * pow2((exp - 52) as nat) >= pow2(52) * pow2(
                    (exp - 52) as nat,
                )) by (nonlinear_arith)
                    requires
                        m >= 0,
                        pow2((exp - 52) as nat) >= 1,
                ;
                assert(pow2(52) * pow2((exp - 52) as nat) == pow2(exp as nat));
                assert(pow2(exp as nat) >= pow2(128));
                assert((pow2(52) + m) * pow2((exp - 52) as nat) > u128::MAX);
                let v = spec_f64_integer(b)->0;
                if sg {
                    vstd::arithmetic::mul::lemma_mul_is_associative(
                        -1,
                        pow2(52) + m as int,
                        pow2((exp - 52) as nat) as int,
                    );
                    assert(v == -1 * ((pow2(52) + m as int) * pow2((exp - 52) as nat)));
                    assert(v < -(u128::MAX as int));
                } else {
                    assert(v == (pow2(52) + m as int) * pow2((exp - 52) as nat));
                    assert(v > u128::MAX);
                }
            }
            None
        } else {
            let exp_shift = (exp - 52) as usize;
            let p = pow2_u128(exp_shift);
            proof {
                lemma_pow2_adds(53, (exp - 52) as nat);
                lemma_pow2_pos((exp - 52) as nat);
                if exp < 127 {
                    lemma_pow2_strictly_increases((exp + 1) as nat, 128);
                }
                lemma_pow2_adds(64, 64);
                vstd::arithmetic::power2::lemma2_to64();
                vstd::arithmetic::power2::lemma2_to64_rest();
                assert(pow2(53) == 0x20_0000_0000_0000);
                assert(pow2((exp + 1) as nat) <= 0x1_0000_0000_0000_0000_0000_0000_0000_0000);
                assert((0x10_0000_0000_0000 + m) * p < 0x20_0000_0000_0000 * p)
                    by (nonlinear_arith)
                    requires
                        0 <= m < 0x10_0000_0000_0000,
                        p >= 1,
                ;
                assert(0x20_0000_0000_0000 * p == pow2((exp + 1) as nat));
            }
            let mag = (0x10_0000_0000_0000u128 + m as u128) * p;
            proof {
                assert(pow2(52) == 0x10_0000_0000_0000);
                assert(mag == (pow2(52) + m as int) * pow2((exp - 52) as nat));
                if sg {
                    vstd::arithmetic::mul::lemma_mul_is_associative(
                        -1,
                        pow2(52) + m as int,
                        pow2((exp - 52) as nat) as int,
                    );
                    assert(spec_f64_integer(b) == Some(-1 * ((pow2(52) + m as int) * pow2(
                        (exp - 52) as nat,
                    ))));
                } else {
                    assert(spec_f64_integer(b) == Some(1 * ((pow2(52) + m as int) * pow2(
                        (exp - 52) as nat,
                    ))));
                }
            }
            Some((sg, mag))
        }
    } else {
        // The fraction must have no bits below one.
        let k = (1023 + 52 - e) as usize;
        let d = pow2_u64(k);
        proof {
            lemma_pow2_pos(k as nat);
            vstd::arithmetic::power2::lemma2_to64_rest();
            assert(pow2(52) == 0x10_0000_0000_0000);
        }
        if m % d == 0 {
            let mag = ((0x10_0000_0000_0000u64 + m) / d) as u128;
            proof {
                assert(mag == (pow2(52) + m as int) / pow2(k as nat) as int);
                if sg {
                    assert(spec_f64_integer(b) == Some(-1 * ((pow2(52) + m as int) / pow2(
                        k as nat,
                    ) as int)));
                } else {
                    assert(spec_f64_integer(b) == Some(1 * ((pow2(52) + m as int) / pow2(
                        k as nat,
                    ) as int)));
                }
            }
            Some((sg, mag))
        } else {
            None
        }
    }
}

/// The binary64 pattern this number's floating point value widens to;
/// nothing for integers.
fn wide_bits(n: &Number) -> (r: Option<u64>)
    ensures
        r == spec_wide_bits(*n),
{
    match n {
        Number::I128(_) => None,
        Number::U128(_) => None,
        Number::F32Bits(b) => Some(widen_f32_bits(*b)),
        Number::F64Bits(b) => Some(*b),
    }
}

/// Whether the binary64 pattern is a NaN.
fn f64_is_nan_bits(b: u64) -> (r: bool)
    ensures
        r == spec_f64_is_nan(b),
{
    let e: u64 = (b / 0x10_0000_0000_0000) % 0x800;
    let m: u64 = b % 0x10_0000_0000_0000;
    e == 0x7FF && m != 0
}

/// Whether the binary64 pattern is one of the two zeros.
fn f64_is_zero_bits(b: u64) -> (r: bool)
    ensures
        r == spec_f64_is_zero(b),
{
    let e: u64 = (b / 0x10_0000_0000_0000) % 0x800;
    let m: u64 = b % 0x10_0000_0000_0000;
    e == 0 && m == 0
}

impl Number {
    /// Returns the value iff it can be represented as an `i128` without
    /// narrowing.
    pub fn as_i128(&self) -> (r: Option<i128>)
        ensures
            match spec_as_i128(*self) {
                Some(v) => r matches Some(x) && x as int == v,
                None => r is None,
            },
    {
        match self {
            Number::I128(v) => Some(*v),
            Number::U128(v) => {
                if *v <= 0x7FFF_FFFF_FFFF_FFFF_FFFF_FFFF_FFFF_FFFFu128 {
                    Some(*v as i128)
                } else {
                    None
                }
            },
            _ => {
                let w = match wide_bits(self) {
                    Some(w) => w,
                    None => {
                        proof {
                            assert(false);
                        }
                        return None;
                    },
                };
                match f64_bits_magnitude(w) {
                    Some((sg, mag)) => {
                        if !sg {
                            if mag <= 0x7FFF_FFFF_FFFF_FFFF_FFFF_FFFF_FFFF_FFFFu128 {
                                Some(mag as i128)
                            } else {
                                None
                            }
                        } else {
                            if mag <= 0x7FFF_FFFF_FFFF_FFFF_FFFF_FFFF_FFFF_FFFFu128 {
                                Some(-(mag as i128))
                            } else if mag == 0x8000_0000_0000_0000_0000_0000_0000_0000u128 {
                                Some(i128::MIN)
                            } else {
                                None
                            }
                        }
                    },
                    None => None,
                }
            },
        }
    }

    /// Returns the value iff it can be represented as a `u128` without
    /// narrowing.
    pub fn as_u128(&self) -> (r: Option<u128>)
        ensures
            match spec_as_u128(*self) {
                Some(v) => r matches Some(x) && x as int == v,
                None => r is None,
            },
    {
        match self {
            Number::I128(v) => {
                if *v >= 0 {
                    Some(*v as u128)
                } else {
                    None
                }
            },
            Number::U128(v) => Some(*v),
            _ => {
                let w = match wide_bits(self) {
                    Some(w) => w,
                    None => {
                        proof {
                            assert(false);
                        }
                        return None;
                    },
                };
                match f64_bits_magnitude(w) {
                    Some((sg, mag)) => {
                        if !sg || mag == 0 {
                            Some(mag)
                        } else {
                            None
                        }
                    },
                    None => None,
                }
            },
        }
    }

    /// Returns the value iff it can be represented as an `i64` without
    /// narrowing.
    pub fn as_i64(&self) -> (r: Option<i64>)
        ensures
            match spec_as_i64(*self) {
                Some(v) => r matches Some(x) && x as int == v,
                None => r is None,
            },
    {
        match self.as_i128() {
            Some(v) => {
                if -0x8000_0000_0000_0000i128 <= v && v <= 0x7FFF_FFFF_FFFF_FFFFi128 {
                    Some(v as i64)
                } else {
                    None
                }
            },
            None => None,
        }
    }

    /// Returns the value iff it can be represented as a `u64` without
    /// narrowing.
    pub fn as_u64(&self) -> (r: Option<u64>)
        ensures
            match spec_as_u64(*self) {
                Some(v) => r matches Some(x) && x as int == v,
                None => r is None,
            },
    {
        match self.as_u128() {
            Some(v) => {
                if v <= 0xFFFF_FFFF_FFFF_FFFFu128 {
                    Some(v as u64)
                } else {
                    None
                }
            },
            None => None,
        }
    }

    /// Returns the number with the opposite sign, or `None` if the
    /// negation cannot be represented.
    pub fn try_negate(&self) -> (r: Option<Number>)
        ensures
            r == spec_try_negate(*self),
    {
        match self {
            Number::I128(value) => {
                if *value == i128::MIN {
                    // Negation would overflow.
                    None
                } else {
                    Some(Number::I128(-*value))
                }
            },
            Number::U128(value) => {
                if *value <= 0x7FFF_FFFF_FFFF_FFFF_FFFF_FFFF_FFFF_FFFFu128 {
                    Some(Number::I128(-(*value as i128)))
                } else {
                    // Negation would overflow.
                    None
                }
            },
            Number::F32Bits(b) => Some(
                Number::F32Bits(
                    if *b >= 0x8000_0000 {
                        *b - 0x8000_0000
                    } else {
                        *b + 0x8000_0000
                    },
                ),
            ),
            Number::F64Bits(b) => Some(
                Number::F64Bits(
                    if *b >= 0x8000_0000_0000_0000 {
                        *b - 0x8000_0000_0000_0000
                    } else {
                        *b + 0x8000_0000_0000_0000
                    },
                ),
            ),
        }
    }
}

impl PartialEq for Number {
    /// Numbers are compared across representations: see `spec_num_eq`.
    fn eq(&self, other: &Number) -> (r: bool) {
        let a1 = self.as_i128();
        let b1 = other.as_i128();
        match (a1, b1) {
            (Some(x), Some(y)) => {
                return x == y;
            },
            _ => {},
        }
        let a2 = self.as_u128();
        let b2 = other.as_u128();
        match (a2, b2) {
            (Some(x), Some(y)) => {
                return x == y;
            },
            _ => {},
        }
        match (wide_bits(self), wide_bits(other)) {
            (Some(x), Some(y)) => {
                // The format's `+nan` is a single canonical value, so
                // NaNs are equal to each other here.
                (f64_is_nan_bits(x) && f64_is_nan_bits(y)) || (f64_is_zero_bits(x)
                    && f64_is_zero_bits(y)) || x == y
            },
            _ => false,
        }
    }
}

impl vstd::std_specs::cmp::PartialEqSpecImpl for Number {
    open spec fn obeys_eq_spec() -> bool {
        true
    }

    open spec fn eq_spec(&self, other: &Number) -> bool {
        spec_num_eq(*self, *other)
    }
}

impl Eq for Number {

}

/// `s` with every underscore removed; underscores are digit-group
/// separators.
pub open spec fn spec_strip_underscores(s: Seq<char>) -> Seq<char>
    decreases s.len(),
{
    if s.len() == 0 {
        Seq::empty()
    } else if s.last() == '_' {
        spec_strip_underscores(s.drop_last())
    } else {
        spec_strip_underscores(s.drop_last()).push(s.last())
    }
}

/// The value of a digit character in the given radix, as `to_digit`
/// reads it.
pub open spec fn spec_digit_val(c: char, radix: u32) -> Option<u32> {
    let v: int = if '0' <= c && c <= '9' {
        c as u32 - '0' as u32
    } else if 'a' <= c && c <= 'z' {
        c as u32 - 'a' as u32 + 10
    } else if 'A' <= c && c <= 'Z' {
        c as u32 - 'A' as u32 + 10
    } else {
        99
    };
    if v < radix {
        Some(v as u32)
    } else {
        None
    }
}

/// The value of a run of digits in the given radix; the empty run has
/// value zero.
pub open spec fn spec_digits_value(s: Seq<char>, radix: u32) -> Option<int>
    decreases s.len(),
{
    if s.len() == 0 {
        Some(0)
    } else {
        match (spec_digits_value(s.drop_last(), radix), spec_digit_val(s.last(), radix)) {
            (Some(v), Some(d)) => Some(v * radix + d),
            _ => None,
        }
    }
}

/// The value of an unsigned integer literal in the given radix: one
/// optional leading `+`, then at least one digit.
pub open spec fn spec_radix_value(s: Seq<char>, radix: u32) -> Option<int> {
    let t = if s.len() > 0 && s[0] == '+' {
        s.skip(1)
    } else {
        s
    };
    if t.len() == 0 {
        None
    } else {
        spec_digits_value(t, radix)
    }
}

/// A run of digits with an invalid digit anywhere has no value.
proof fn lemma_digits_invalid(s: Seq<char>, radix: u32, k: int)
    requires
        0 <= k < s.len(),
        spec_digit_val(s[k], radix) is None,
    ensures
        spec_digits_value(s, radix) is None,
    decreases s.len(),
{
    if k == s.len() - 1 {
    } else {
        lemma_digits_invalid(s.drop_last(), radix, k);
    }
}

/// The strings whose lowercase form is `nan`.
pub open spec fn spec_is_nan_word(s: Seq<char>) -> bool {
    s.len() == 3 && (s[0] == 'n' || s[0] == 'N') && (s[1] == 'a' || s[1] == 'A') && (s[2] == 'n'
        || s[2] == 'N')
}

/// Whether the literal looks like a decimal: it has a period or an
/// exponent marker.
pub open spec fn spec_looks_like_decimal(s: Seq<char>) -> bool {
    exists|i: int| 0 <= i < s.len() && (s[i] == '.' || s[i] == 'e' || s[i] == 'E')
}

/// What parsing a numeric literal yields, as mathematics.
pub enum SpecNumberParseOutcome {
    /// The literal is a number by itself.
    Value(Number),
    /// The literal is rejected with this message.
    Failure(Seq<char>),
    /// A decimal literal: it still needs a binary64 conversion of
    /// `literal`, negated afterwards when `negate` is set.
    Decimal { negate: bool, literal: Seq<char> },
    /// An integer literal too large for 128 bits (or malformed): it
    /// falls back to a binary64 conversion of `literal`.
    Fallback { negate: bool, literal: Seq<char> },
}

/// What parsing a numeric literal yields.
///
/// The core itself has no floating point conversion, so a decimal
/// literal is handed back to the caller: convert the `literal` text to a
/// binary64 pattern and finish with [`Number::from_decimal_bits`] or
/// [`Number::from_fallback_bits`].
#[derive(Debug)]
pub enum NumberParseOutcome {
    /// The literal is a number by itself.
    Value(Number),
    /// The literal is rejected with this message.
    Failure(String),
    /// A decimal literal: it still needs a binary64 conversion of
    /// `literal`, negated afterwards when `negate` is set.
    Decimal { negate: bool, literal: String },
    /// An integer literal too large for 128 bits (or malformed): it
    /// falls back to a binary64 conversion of `literal`.
    Fallback { negate: bool, literal: String },
}

impl View for NumberParseOutcome {
    type V = SpecNumberParseOutcome;

    open spec fn view(&self) -> SpecNumberParseOutcome {
        match self {
            NumberParseOutcome::Value(n) => SpecNumberParseOutcome::Value(*n),
            NumberParseOutcome::Failure(m) => SpecNumberParseOutcome::Failure(m@),
            NumberParseOutcome::Decimal { negate, literal } => SpecNumberParseOutcome::Decimal {
                negate: *negate,
                literal: literal@,
            },
            NumberParseOutcome::Fallback { negate, literal } => SpecNumberParseOutcome::Fallback {
                negate: *negate,
                literal: literal@,
            },
        }
    }
}

/// An unsigned number, negated when the literal had a minus sign.
pub open spec fn spec_signed_outcome(negate: bool, n: Number) -> SpecNumberParseOutcome {
    if negate {
        match spec_try_negate(n) {
            Some(x) => SpecNumberParseOutcome::Value(x),
            None => SpecNumberParseOutcome::Failure("Number too small"@),
        }
    } else {
        SpecNumberParseOutcome::Value(n)
    }
}

/// What parsing a numeric literal yields: underscores are stripped; the
/// specials `+nan`, `-inf`, `+inf` are single canonical values; a `0b` or
/// `0x` prefix reads an unsigned binary or hex integer; a literal with a
/// period or exponent marker is a decimal; anything else is an unsigned
/// decimal integer, falling back to binary64 when it does not fit.
/// The case-insensitive spellings of `nan` are rejected outright, so
/// that `+nan` stays the one way to write it.
pub open spec fn spec_number_parse(s: Seq<char>) -> SpecNumberParseOutcome {
    let t = spec_strip_underscores(s);
    if t == "+nan"@ {
        SpecNumberParseOutcome::Value(Number::F32Bits(0x7FC0_0000))
    } else if t == "-inf"@ {
        SpecNumberParseOutcome::Value(Number::F32Bits(0xFF80_0000))
    } else if t == "+inf"@ {
        SpecNumberParseOutcome::Value(Number::F32Bits(0x7F80_0000))
    } else {
        let negate = t.len() > 0 && t[0] == '-';
        let u = if t.len() > 0 && (t[0] == '+' || t[0] == '-') {
            t.skip(1)
        } else {
            t
        };
        if spec_is_nan_word(u) {
            SpecNumberParseOutcome::Failure("NaN must be written as '+nan'"@)
        } else if u.len() >= 2 && u[0] == '0' && u[1] == 'b' {
            match spec_radix_value(u.skip(2), 2) {
                Some(v) => if v <= u128::MAX {
                    spec_signed_outcome(negate, Number::U128(v as u128))
                } else {
                    SpecNumberParseOutcome::Failure(
                        "Failed to parse binary number. Expected '0b\u{2026}'"@,
                    )
                },
                None => SpecNumberParseOutcome::Failure(
                    "Failed to parse binary number. Expected '0b\u{2026}'"@,
                ),
            }
        } else if u.len() >= 2 && u[0] == '0' && u[1] == 'x' {
            match spec_radix_value(u.skip(2), 16) {
                Some(v) => if v <= u128::MAX {
                    spec_signed_outcome(negate, Number::U128(v as u128))
                } else {
                    SpecNumberParseOutcome::Failure(
                        "Failed to parse hexadecimal number. Expected '0x\u{2026}'"@,
                    )
                },
                None => SpecNumberParseOutcome::Failure(
                    "Failed to parse hexadecimal number. Expected '0x\u{2026}'"@,
                ),
            }
        } else if spec_looks_like_decimal(u) {
            SpecNumberParseOutcome::Decimal { negate, literal: u }
        } else {
            match spec_radix_value(u, 10) {
                Some(v) => if v <= u128::MAX {
                    spec_signed_outcome(negate, Number::U128(v as u128))
                } else {
                    // Too large for 128 bits: approximate as binary64.
                    SpecNumberParseOutcome::Fallback { negate, literal: u }
                },
                None => SpecNumberParseOutcome::Fallback { negate, literal: u },
            }
        }
    }
}

/// The value of a digit character in the given radix.
fn digit_val(c: char, radix: u32) -> (r: Option<u32>)
    requires
        2 <= radix <= 36,
    ensures
        r == spec_digit_val(c, radix),
{
    let n = c as u32;
    let v: u32 = if '0' <= c && c <= '9' {
        n - '0' as u32
    } else if 'a' <= c && c <= 'z' {
        n - 'a' as u32 + 10
    } else if 'A' <= c && c <= 'Z' {
        n - 'A' as u32 + 10
    } else {
        99
    };
    if v < radix {
        Some(v)
    } else {
        None
    }
}

/// Parse `v[from..]` as an unsigned integer in the given radix: one
/// optional leading `+`, then at least one digit. `None` when the run is
/// malformed or its value does not fit 128 bits.
fn parse_radix(v: &Vec<char>, from: usize, radix: u32) -> (r: Option<u128>)
    requires
        from <= v@.len(),
        2 <= radix <= 36,
    ensures
        match r {
            Some(x) => spec_radix_value(v@.skip(from as int), radix) == Some(x as int),
            None => match spec_radix_value(v@.skip(from as int), radix) {
                Some(w) => w > u128::MAX,
                None => true,
            },
        },
{
    let ghost whole = v@.skip(from as int);
    let n = v.len();
    let mut i = from;
    if i < n && v[i] == '+' {
        i = i + 1;
        proof {
            assert(whole.skip(1) =~= v@.skip(i as int));
        }
    }
    let ghost digits = v@.skip(i as int);
    if i >= n {
        return None;
    }
    let mut acc: u128 = 0;
    let ghost mut exact: int = 0int;
    let mut big = false;
    let mut j = i;
    proof {
        assert(digits.subrange(0, 0) =~= Seq::<char>::empty());
        assert(spec_radix_value(whole, radix) == spec_digits_value(digits, radix));
    }
    while j < n
        invariant
            from <= i <= j <= n == v@.len(),
            2 <= radix <= 36,
            digits == v@.skip(i as int),
            digits.len() > 0,
            whole == v@.skip(from as int),
            spec_radix_value(whole, radix) == spec_digits_value(digits, radix),
            spec_digits_value(digits.subrange(0, j - i), radix) == Some(exact),
            exact >= 0,
            !big ==> acc as int == exact,
            big ==> exact > u128::MAX,
        decreases n - j,
    {
        let c = v[j];
        proof {
            assert(digits[j - i] == c);
            assert(digits.subrange(0, j + 1 - i).drop_last() =~= digits.subrange(0, j - i));
        }
        match digit_val(c, radix) {
            None => {
                proof {
                    lemma_digits_invalid(digits, radix, j - i);
                }
                return None;
            },
            Some(d) => {
                proof {
                    assert(exact * radix + d >= exact) by (nonlinear_arith)
                        requires
                            radix >= 2,
                            exact >= 0,
                            d >= 0,
                    ;
                }
                if !big {
                    // Would the next accumulation step overflow?
                    let limit = (u128::MAX - d as u128) / radix as u128;
                    let ghost mx: int = u128::MAX as int;
                    let ghost dd: int = d as int;
                    let ghost rr: int = radix as int;
                    let ghost av: int = acc as int;
                    proof {
                        assert(limit as int == (mx - dd) / rr);
                    }
                    if acc > limit {
                        proof {
                            assert(av * rr + dd > mx) by (nonlinear_arith)
                                requires
                                    2 <= rr <= 36,
                                    0 <= dd < rr,
                                    mx >= 0,
                                    av > (mx - dd) / rr,
                            ;
                        }
                        big = true;
                    } else {
                        proof {
                            assert(av * rr + dd <= mx) by (nonlinear_arith)
                                requires
                                    2 <= rr <= 36,
                                    0 <= dd < rr,
                                    mx >= 0,
                                    0 <= av <= (mx - dd) / rr,
                            ;
                        }
                        acc = acc * radix as u128 + d as u128;
                    }
                }
                proof {
                    exact = exact * radix + d;
                }
                j = j + 1;
            },
        }
    }
    proof {
        assert(digits.subrange(0, n - i) =~= digits);
    }
    if big {
        None
    } else {
        Some(acc)
    }
}

/// Whether the literal contains a period or an exponent marker.
fn looks_like_decimal(v: &Vec<char>, from: usize) -> (r: bool)
    requires
        from <= v@.len(),
    ensures
        r == spec_looks_like_decimal(v@.skip(from as int)),
{
    let n = v.len();
    let mut i = from;
    while i < n
        invariant
            from <= i <= n == v@.len(),
            forall|j: int| from <= j < i ==> v@[j] != '.' && v@[j] != 'e' && v@[j] != 'E',
        decreases n - i,
    {
        let c = v[i];
        if c == '.' || c == 'e' || c == 'E' {
            proof {
                assert(v@.skip(from as int)[i - from] == c);
            }
            return true;
        }
        i = i + 1;
    }
    proof {
        assert(forall|j: int|
            0 <= j < v@.skip(from as int).len() ==> v@.skip(from as int)[j] == v@[j + from]);
    }
    false
}

impl Number {
    /// Parse a numeric literal as far as integer arithmetic can take
    /// it. Underscores are allowed as digit-group separators; the
    /// specials `+nan`, `-inf` and `+inf` are single canonical values;
    /// `0b` and `0x` read unsigned binary and hex integers; a literal
    /// with a period or exponent marker comes back as
    /// [`NumberParseOutcome::Decimal`] for the caller to convert.
    pub fn parse_step(s: &str) -> (r: NumberParseOutcome)
        ensures
            r@ == spec_number_parse(s@),
    {
        let v0 = str_to_chars(s);
        // Underscores are allowed as digit-group separators.
        let mut v: Vec<char> = Vec::new();
        let n0 = v0.len();
        let mut i: usize = 0;
        while i < n0
            invariant
                i <= n0 == v0@.len(),
                v0@ == s@,
                v@ == spec_strip_underscores(v0@.subrange(0, i as int)),
            decreases n0 - i,
        {
            proof {
                assert(v0@.subrange(0, i + 1).drop_last() =~= v0@.subrange(0, i as int));
            }
            if v0[i] != '_' {
                v.push(v0[i]);
            }
            i = i + 1;
        }
        proof {
            assert(v0@.subrange(0, n0 as int) =~= v0@);
        }
        let ghost t = spec_strip_underscores(s@);
        assert(v@ == t);
        let n = v.len();
        proof {
            reveal_strlit("+nan");
            reveal_strlit("-inf");
            reveal_strlit("+inf");
        }
        if n == 4 && v[0] == '+' && v[1] == 'n' && v[2] == 'a' && v[3] == 'n' {
            proof {
                assert(v@ =~= "+nan"@);
            }
            return NumberParseOutcome::Value(Number::F32Bits(0x7FC0_0000));
        }
        if n == 4 && v[0] == '-' && v[1] == 'i' && v[2] == 'n' && v[3] == 'f' {
            proof {
                assert(v@ =~= "-inf"@);
            }
            return NumberParseOutcome::Value(Number::F32Bits(0xFF80_0000));
        }
        if n == 4 && v[0] == '+' && v[1] == 'i' && v[2] == 'n' && v[3] == 'f' {
            proof {
                assert(v@ =~= "+inf"@);
            }
            return NumberParseOutcome::Value(Number::F32Bits(0x7F80_0000));
        }
        assert(t != "+nan"@ && t != "-inf"@ && t != "+inf"@);
        let negate = n > 0 && v[0] == '-';
        let start: usize = if n > 0 && (v[0] == '+' || v[0] == '-') {
            1
        } else {
            0
        };
        let ghost u = if t.len() > 0 && (t[0] == '+' || t[0] == '-') {
            t.skip(1)
        } else {
            t
        };
        proof {
            assert(u =~= v@.skip(start as int));
        }
        let m = n - start;
        if m == 3 && (v[start] == 'n' || v[start] == 'N') && (v[start + 1] == 'a' || v[start + 1]
            == 'A') && (v[start + 2] == 'n' || v[start + 2] == 'N') {
            assert(spec_is_nan_word(u));
            return NumberParseOutcome::Failure(
                String::from_str("NaN must be written as '+nan'"),
            );
        }
        assert(!spec_is_nan_word(u));
        if m >= 2 && v[start] == '0' && v[start + 1] == 'b' {
            proof {
                assert(u.skip(2) =~= v@.skip(start + 2));
            }
            match parse_radix(&v, start + 2, 2) {
                Some(value) => Self::signed_outcome(negate, Number::U128(value)),
                None => NumberParseOutcome::Failure(
                    String::from_str("Failed to parse binary number. Expected '0b\u{2026}'"),
                ),
            }
        } else if m >= 2 && v[start] == '0' && v[start + 1] == 'x' {
            proof {
                assert(u.skip(2) =~= v@.skip(start + 2));
            }
            match parse_radix(&v, start + 2, 16) {
                Some(value) => Self::signed_outcome(negate, Number::U128(value)),
                None => NumberParseOutcome::Failure(
                    String::from_str(
                        "Failed to parse hexadecimal number. Expected '0x\u{2026}'",
                    ),
                ),
            }
        } else if looks_like_decimal(&v, start) {
            let literal = chars_to_string(&vec_range(&v, start, n));
            NumberParseOutcome::Decimal { negate, literal }
        } else {
            match parse_radix(&v, start, 10) {
                Some(value) => Self::signed_outcome(negate, Number::U128(value)),
                None => {
                    // Too large for 128 bits, or not an integer after
                    // all: approximate as binary64.
                    let literal = chars_to_string(&vec_range(&v, start, n));
                    NumberParseOutcome::Fallback { negate, literal }
                },
            }
        }
    }

    /// An unsigned number, negated when the literal had a minus sign.
    fn signed_outcome(negate: bool, n: Number) -> (r: NumberParseOutcome)
        ensures
            r@ == spec_signed_outcome(negate, n),
    {
        if negate {
            match n.try_negate() {
                Some(x) => NumberParseOutcome::Value(x),
                None => NumberParseOutcome::Failure(String::from_str("Number too small")),
            }
        } else {
            NumberParseOutcome::Value(n)
        }
    }

    /// Finish parsing a decimal literal from the binary64 pattern the
    /// caller converted it to (`None` when the conversion failed).
    pub fn from_decimal_bits(negate: bool, bits: Option<u64>) -> (r: Result<Number, String>)
        ensures
            match bits {
                Some(b) => r matches Ok(x) && Some(x) == spec_try_negate_if(
                    negate,
                    Number::F64Bits(b),
                ),
                None => r matches Err(e) && e@
                    == "Failed to parse float number. Expected a valid float."@,
            },
    {
        match bits {
            Some(b) =>

                match (Number::F64Bits(b), negate) {
                    (x, false) => Ok(x),
                    (x, true) => match x.try_negate() {
                        Some(y) => Ok(y),
                        None => {
                            proof {
                                assert(false);
                            }
                            Err(String::new())
                        },
                    },
                },
            None => Err(
                String::from_str("Failed to parse float number. Expected a valid float."),
            ),
        }
    }

    /// Finish parsing an oversized integer literal from the binary64
    /// pattern the caller converted it to (`None` when the conversion
    /// failed).
    pub fn from_fallback_bits(negate: bool, bits: Option<u64>) -> (r: Result<Number, String>)
        ensures
            match bits {
                Some(b) => r matches Ok(x) && Some(x) == spec_try_negate_if(
                    negate,
                    Number::F64Bits(b),
                ),
                None => r matches Err(e) && e@ == "Failed to parse number"@,
            },
    {
        match bits {
            Some(b) =>

                match (Number::F64Bits(b), negate) {
                    (x, false) => Ok(x),
                    (x, true) => match x.try_negate() {
                        Some(y) => Ok(y),
                        None => {
                            proof {
                                assert(false);
                            }
                            Err(String::new())
                        },
                    },
                },
            None => Err(String::from_str("Failed to parse number")),
        }
    }
}

/// The decimal digit with value `n`.
pub open spec fn spec_dec_digit(n: int) -> char {
    if n == 0 {
        '0'
    } else if n == 1 {
        '1'
    } else if n == 2 {
        '2'
    } else if n == 3 {
        '3'
    } else if n == 4 {
        '4'
    } else if n == 5 {
        '5'
    } else if n == 6 {
        '6'
    } else if n == 7 {
        '7'
    } else if n == 8 {
        '8'
    } else {
        '9'
    }
}

/// `n` written in decimal, without leading zeros.
pub open spec fn spec_dec_nat(n: nat) -> Seq<char>
    decreases n,
{
    if n < 10 {
        seq![spec_dec_digit(n as int)]
    } else {
        spec_dec_nat(n / 10).push(spec_dec_digit((n % 10) as int))
    }
}

/// `v` written in decimal, with a leading minus sign when negative.
pub open spec fn spec_dec_int(v: int) -> Seq<char> {
    if v < 0 {
        seq!['-'] + spec_dec_nat((-v) as nat)
    } else {
        spec_dec_nat(v as nat)
    }
}

/// Write `n` in decimal onto `out`.
fn push_dec_u128(out: &mut Vec<char>, n: u128)
    ensures
        final(out)@ == old(out)@ + spec_dec_nat(n as nat),
    decreases n,
{
    let d = (n % 10) as u32;
    let c: char = if d == 0 {
        '0'
    } else if d == 1 {
        '1'
    } else if d == 2 {
        '2'
    } else if d == 3 {
        '3'
    } else if d == 4 {
        '4'
    } else if d == 5 {
        '5'
    } else if d == 6 {
        '6'
    } else if d == 7 {
        '7'
    } else if d == 8 {
        '8'
    } else {
        '9'
    };
    if n < 10 {
        out.push(c);
    } else {
        push_dec_u128(out, n / 10);
        out.push(c);
    }
}

impl Number {
    /// The canonical text of the number, where integer arithmetic can
    /// produce it: decimal for the integers, and the fixed spellings
    /// `+nan`, `+inf`, `-inf` and `-0.0` for the special floating point
    /// values. A finite nonzero floating point value has no canonical
    /// text here — it needs a shortest-round-trip decimal rendering,
    /// which is left to the caller.
    pub fn canonical_text(&self) -> (r: Option<String>)
        ensures
            match *self {
                Number::I128(v) => r matches Some(s) && s@ == spec_dec_int(v as int),
                Number::U128(v) => r matches Some(s) && s@ == spec_dec_nat(v as nat),
                Number::F32Bits(_) | Number::F64Bits(_) => {
                    let w = spec_wide_bits(*self)->0;
                    if spec_f64_is_nan(w) {
                        r matches Some(s) && s@ == "+nan"@
                    } else if spec_f64_is_inf(w) {
                        r matches Some(s) && s@ == (if spec_f64_sign(w) {
                            "-inf"@
                        } else {
                            "+inf"@
                        })
                    } else if spec_f64_is_zero(w) && spec_f64_sign(w) {
                        r matches Some(s) && s@ == "-0.0"@
                    } else {
                        r is None
                    }
                },
            },
    {
        match self {
            Number::I128(v) => {
                let mut out: Vec<char> = Vec::new();
                if *v < 0 {
                    out.push('-');
                    let mag: u128 = (-(*v + 1)) as u128 + 1;
                    push_dec_u128(&mut out, mag);
                    proof {
                        assert(out@ =~= spec_dec_int(*v as int));
                    }
                } else {
                    push_dec_u128(&mut out, *v as u128);
                    proof {
                        assert(out@ =~= spec_dec_int(*v as int));
                    }
                }
                Some(chars_to_string(&out))
            },
            Number::U128(v) => {
                let mut out: Vec<char> = Vec::new();
                push_dec_u128(&mut out, *v);
                proof {
                    assert(out@ =~= spec_dec_nat(*v as nat));
                }
                Some(chars_to_string(&out))
            },
            _ => {
                let w = match wide_bits(self) {
                    Some(w) => w,
                    None => {
                        proof {
                            assert(false);
                        }
                        return None;
                    },
                };
                let e: u64 = (w / 0x10_0000_0000_0000) % 0x800;
                let m: u64 = w % 0x10_0000_0000_0000;
                let sg = w >= 0x8000_0000_0000_0000;
                if e == 0x7FF && m != 0 {
                    Some(String::from_str("+nan"))
                } else if e == 0x7FF {
                    if sg {
                        Some(String::from_str("-inf"))
                    } else {
                        Some(String::from_str("+inf"))
                    }
                } else if e == 0 && m == 0 && sg {
                    Some(String::from_str("-0.0"))
                } else {
                    None
                }
            },
        }
    }
}

/// Every number equals itself, including the canonical NaN: the format's
/// `+nan` is a single value, so equality is reflexive where IEEE
/// comparison would not be.
pub proof fn lemma_num_eq_reflexive(n: Number)
    ensures
        spec_num_eq(n, n),
{
}

/// Number equality does not depend on the order of its operands.
pub proof fn lemma_num_eq_symmetric(a: Number, b: Number)
    ensures
        spec_num_eq(a, b) == spec_num_eq(b, a),
{
}

/// Number equality carries over: two numbers equal to the same third
/// number are equal to each other. With reflexivity and symmetry, the
/// cross-representation equality is an equivalence relation.
pub proof fn lemma_num_eq_transitive(a: Number, b: Number, c: Number)
    requires
        spec_num_eq(a, b),
        spec_num_eq(b, c),
    ensures
        spec_num_eq(a, c),
{
}

/// Stripping underscores from a text that has none leaves it as it is.
proof fn lemma_strip_underscores_id(s: Seq<char>)
    requires
        forall|i: int| 0 <= i < s.len() ==> s[i] != '_',
    ensures
        spec_strip_underscores(s) == s,
    decreases s.len(),
{
    if s.len() > 0 {
        lemma_strip_underscores_id(s.drop_last());
        assert(spec_strip_underscores(s) =~= s);
    }
}

/// Every character of a decimal rendering is a decimal digit.
proof fn lemma_dec_nat_digits(n: nat)
    ensures
        forall|i: int|
            0 <= i < spec_dec_nat(n).len() ==> ('0' <= #[trigger] spec_dec_nat(n)[i]
                && spec_dec_nat(n)[i] <= '9'),
        spec_dec_nat(n).len() > 0,
    decreases n,
{
    if n < 10 {
        assert(spec_dec_nat(n) == seq![spec_dec_digit(n as int)]);
        assert(spec_dec_nat(n)[0] == spec_dec_digit(n as int));
    } else {
        lemma_dec_nat_digits(n / 10);
        let p = spec_dec_nat(n / 10);
        let d = spec_dec_digit((n % 10) as int);
        assert(spec_dec_nat(n) == p.push(d));
        assert forall|i: int| 0 <= i < spec_dec_nat(n).len() implies ('0' <= spec_dec_nat(n)[i]
            && spec_dec_nat(n)[i] <= '9') by {
            if i < p.len() {
                assert(spec_dec_nat(n)[i] == p[i]);
            } else {
                assert(spec_dec_nat(n)[i] == d);
            }
        }
    }
}

/// Reading the decimal rendering of a value back as base-ten digits
/// yields the value again.
proof fn lemma_dec_nat_value(n: nat)
    ensures
        spec_digits_value(spec_dec_nat(n), 10) == Some(n as int),
    decreases n,
{
    if n < 10 {
        let s = spec_dec_nat(n);
        assert(s == seq![spec_dec_digit(n as int)]);
        assert(s.drop_last() =~= Seq::<char>::empty());
        assert(spec_digits_value(s.drop_last(), 10) == Some(0int));
        assert(spec_digit_val(s.last(), 10) == Some(n as u32));
    } else {
        lemma_dec_nat_value(n / 10);
        let s = spec_dec_nat(n);
        let p = spec_dec_nat(n / 10);
        assert(s == p.push(spec_dec_digit((n % 10) as int)));
        assert(s.drop_last() =~= p);
        assert(spec_digit_val(s.last(), 10) == Some((n % 10) as u32));
        assert((n / 10) * 10 + n % 10 == n);
    }
}

/// Parsing the decimal rendering of an integer in range yields exactly
/// that integer: unsigned when it is not negative, signed otherwise.
pub proof fn lemma_parse_decimal_int(v: int)
    requires
        -(i128::MAX as int) <= v <= u128::MAX,
    ensures
        spec_number_parse(spec_dec_int(v)) == SpecNumberParseOutcome::Value(
            if v >= 0 {
                Number::U128(v as u128)
            } else {
                Number::I128(v as i128)
            },
        ),
{
    reveal_strlit("+nan");
    reveal_strlit("-inf");
    reveal_strlit("+inf");
    let mag: nat = if v >= 0 {
        v as nat
    } else {
        (-v) as nat
    };
    let d = spec_dec_nat(mag);
    lemma_dec_nat_digits(mag);
    lemma_dec_nat_value(mag);
    let s = spec_dec_int(v);
    assert(forall|i: int| 0 <= i < s.len() ==> s[i] != '_') by {
        if v < 0 {
            assert(forall|i: int| 1 <= i < s.len() ==> s[i] == d[i - 1]);
        }
    }
    lemma_strip_underscores_id(s);
    if v >= 0 {
        assert(s == d);
        assert(s[0] != '+' && s[0] != '-');
        assert(s != "+nan"@ && s != "-inf"@ && s != "+inf"@);
        let u = s;
        assert(!spec_is_nan_word(u));
        if u.len() >= 2 {
            assert(u[1] != 'b' && u[1] != 'x');
        }
        assert(!spec_looks_like_decimal(u));
        assert(u[0] != '+');
        assert(spec_radix_value(u, 10) == Some(v));
    } else {
        assert(s == seq!['-'] + d);
        assert(s[0] == '-');
        assert(s != "+nan"@ && s != "+inf"@);
        assert(s.len() >= 2 && s[1] == d[0]);
        assert(s != "-inf"@) by {
            if s.len() == 4 {
                assert("-inf"@[1] == 'i');
            }
        }
        let u = s.skip(1);
        assert(u =~= d);
        assert(!spec_is_nan_word(u));
        if u.len() >= 2 {
            assert(u[1] != 'b' && u[1] != 'x');
        }
        assert(!spec_looks_like_decimal(u));
        assert(spec_radix_value(u, 10) == Some(mag as int));
        assert(mag <= i128::MAX);
        assert(spec_try_negate(Number::U128(mag as u128)) == Some(
            Number::I128(v as i128),
        ));
    }
}

/// Narrowing round-trip: when a number yields a 64-bit integer, writing
/// that integer in decimal and parsing it back gives a number equal to
/// the original, across representations.
pub proof fn lemma_narrowing_round_trip(n: Number)
    ensures
        spec_as_i64(n) matches Some(v) ==> (spec_number_parse(spec_dec_int(v))
            matches SpecNumberParseOutcome::Value(m) && spec_num_eq(m, n)),
{
    match spec_as_i64(n) {
        Some(v) => {
            lemma_parse_decimal_int(v);
            let m = if v >= 0 {
                Number::U128(v as u128)
            } else {
                Number::I128(v as i128)
            };
            assert(spec_as_i128(m) == Some(v));
            assert(spec_as_i128(n) == Some(v));
        },
        None => {},
    }
}

/// The number itself when `negate` is unset, its negation otherwise.
pub open spec fn spec_try_negate_if(negate: bool, n: Number) -> Option<Number> {
    if negate {
        spec_try_negate(n)
    } else {
        Some(n)
    }
}

/// `2 ^ k`, as a 64-bit value.
fn pow2_u64(k: usize) -> (r: u64)
    requires
        k < 64,
    ensures
        r == pow2(k as nat),
{
    let mut r: u64 = 1;
    let mut i: usize = 0;
    proof {
        vstd::arithmetic::power2::lemma2_to64();
    }
    while i < k
        invariant
            i <= k < 64,
            r == pow2(i as nat),
        decreases k - i,
    {
        proof {
            lemma_pow2_adds(i as nat, 1);
            vstd::arithmetic::power2::lemma2_to64();
            lemma_pow2_strictly_increases(i as nat + 1, 64);
            vstd::arithmetic::power2::lemma2_to64_rest();
        }
        r = r * 2;
        i = i + 1;
    }
    r
}

/// `2 ^ k`, as a 128-bit value.
fn pow2_u128(k: usize) -> (r: u128)
    requires
        k < 128,
    ensures
        r == pow2(k as nat),
{
    let mut r: u128 = 1;
    let mut i: usize = 0;
    proof {
        vstd::arithmetic::power2::lemma2_to64();
        vstd::arithmetic::power2::lemma2_to64_rest();
    }
    while i < k
        invariant
            i <= k < 128,
            r == pow2(i as nat),
        decreases k - i,
    {
        proof {
            lemma_pow2_adds(i as nat, 1);
            vstd::arithmetic::power2::lemma2_to64();
            lemma_pow2_strictly_increases(i as nat + 1, 128);
            lemma_pow2_adds(64, 64);
            vstd::arithmetic::power2::lemma2_to64_rest();
        }
        r = r * 2;
        i = i + 1;
    }
    r
}

} // verus!
