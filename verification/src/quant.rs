//! Vertex positions and their quantization keys.
//!
//! A position component is carried as the raw bit pattern of an IEEE 754
//! single-precision number. The quantization key of a component is the value
//! multiplied by a fixed scale factor and truncated toward zero, saturated to
//! the key's integer range; two positions deduplicate to one mesh vertex
//! exactly when their keys agree.

use vstd::arithmetic::div_mod::lemma_basic_div_specific_divisor;
use vstd::arithmetic::mul::{
    lemma_mul_by_zero_is_zero, lemma_mul_inequality, lemma_mul_upper_bound,
};
use vstd::arithmetic::power2::{
    lemma2_to64, lemma_pow2_adds, lemma_pow2_pos, lemma_pow2_strictly_increases,
    lemma_pow2_unfold, pow2,
};
use vstd::prelude::*;

verus! {

/// A vertex position. Each field holds the bit pattern of an IEEE 754
/// single-precision component (x, y, z).
#[derive(Clone, Copy, PartialEq, Eq, Structural, Debug)]
pub struct Position {
    pub x: u32,
    pub y: u32,
    pub z: u32,
}

/// Quantization scheme: the scale factor applied to a component before
/// truncation, and the integer range its keys saturate to.
#[derive(Clone, Copy, PartialEq, Eq, Structural, Debug)]
pub enum QuantScheme {
    /// Scale 1e6; keys saturate to the 32-bit signed range.
    Coarse,
    /// Scale 1e9; keys saturate to the 64-bit signed range. The canonical
    /// choice: strictly more precise than `Coarse`.
    Fine,
}

/// Fixed-precision integer triple standing for a quantized position; used
/// solely to deduplicate vertices.
#[derive(Clone, Copy, PartialEq, Eq, Structural, Hash, Debug)]
pub struct QuantKey {
    pub x: i64,
    pub y: i64,
    pub z: i64,
}

/// Sign bit of a single-precision bit pattern.
pub open spec fn f32_sign(bits: u32) -> bool {
    (bits >> 31) == 1u32
}

/// Biased exponent field of a single-precision bit pattern.
pub open spec fn f32_exp(bits: u32) -> u32 {
    (bits >> 23) & 0xff
}

/// Mantissa field of a single-precision bit pattern.
pub open spec fn f32_mantissa(bits: u32) -> u32 {
    bits & 0x7fffff
}

/// A single-precision bit pattern is finite unless its exponent field is
/// all ones (infinities and NaNs).
pub open spec fn f32_finite(bits: u32) -> bool {
    f32_exp(bits) != 255
}

/// Integer significand: the mantissa with the implicit leading bit for
/// normal numbers. The represented magnitude is
/// `f32_significand(bits) * 2^f32_biased_exp(bits) / 2^150`.
pub open spec fn f32_significand(bits: u32) -> nat {
    if f32_exp(bits) == 0 {
        f32_mantissa(bits) as nat
    } else {
        (f32_mantissa(bits) + 0x800000) as nat
    }
}

/// Exponent used with `f32_significand`; subnormals share the scale of the
/// smallest normal exponent.
pub open spec fn f32_biased_exp(bits: u32) -> nat {
    if f32_exp(bits) == 0 {
        1
    } else {
        f32_exp(bits) as nat
    }
}

/// Scale factor of a quantization scheme.
pub open spec fn scale_of(scheme: QuantScheme) -> nat {
    match scheme {
        QuantScheme::Coarse => 1_000_000,
        QuantScheme::Fine => 1_000_000_000,
    }
}

/// Smallest key value of a scheme.
pub open spec fn key_min(scheme: QuantScheme) -> int {
    match scheme {
        QuantScheme::Coarse => -0x8000_0000,
        QuantScheme::Fine => -0x8000_0000_0000_0000,
    }
}

/// Largest key value of a scheme.
pub open spec fn key_max(scheme: QuantScheme) -> int {
    match scheme {
        QuantScheme::Coarse => 0x7fff_ffff,
        QuantScheme::Fine => 0x7fff_ffff_ffff_ffff,
    }
}

/// `v` pulled into `[lo, hi]`.
pub open spec fn saturate(v: int, lo: int, hi: int) -> int {
    if v < lo {
        lo
    } else if v > hi {
        hi
    } else {
        v
    }
}

/// Magnitude of the component's value times the scheme's scale factor,
/// truncated toward zero: `|value| * scale` is
/// `significand * scale * 2^(e-150)`, and truncation of the division is
/// integer division because the operands are nonnegative.
pub open spec fn quant_mag(scheme: QuantScheme, bits: u32) -> int {
    let m = (f32_significand(bits) * scale_of(scheme)) as int;
    let e = f32_biased_exp(bits);
    if e >= 150 {
        m * pow2((e - 150) as nat)
    } else {
        m / pow2((150 - e) as nat) as int
    }
}

/// Quantization key of one component: the signed truncated scaled value,
/// saturated to the scheme's key range. Non-finite bit patterns land on the
/// range's ends; callers that reject non-finite positions never see those.
pub open spec fn quant_component(scheme: QuantScheme, bits: u32) -> int {
    let signed = if f32_sign(bits) {
        -quant_mag(scheme, bits)
    } else {
        quant_mag(scheme, bits)
    };
    saturate(signed, key_min(scheme), key_max(scheme))
}

/// Quantization key of a whole position, componentwise.
pub open spec fn spec_key(scheme: QuantScheme, p: Position) -> (int, int, int) {
    (
        quant_component(scheme, p.x),
        quant_component(scheme, p.y),
        quant_component(scheme, p.z),
    )
}

/// A position is finite when all three components are.
pub open spec fn position_finite(p: Position) -> bool {
    f32_finite(p.x) && f32_finite(p.y) && f32_finite(p.z)
}

impl QuantKey {
    /// The integer triple a key stands for.
    pub open spec fn model(self) -> (int, int, int) {
        (self.x as int, self.y as int, self.z as int)
    }
}

/// Whether all three components of a position are finite.
pub fn position_is_finite(p: &Position) -> (r: bool)
    ensures
        r == position_finite(*p),
{
    ((p.x >> 23) & 0xff) != 255 && ((p.y >> 23) & 0xff) != 255 && ((p.z >> 23) & 0xff) != 255
}

/// Concrete values of the powers of two that the quantizer's proofs compare
/// against.
proof fn lemma_pow2_values()
    ensures
        pow2(53) == 0x20000000000000,
        pow2(54) == 0x40000000000000,
        pow2(73) == 0x2000000000000000000,
        pow2(74) == 0x4000000000000000000,
        pow2(127) == 0x80000000000000000000000000000000,
{
    lemma2_to64();
    lemma_pow2_adds(32, 21);
    lemma_pow2_adds(32, 22);
    lemma_pow2_adds(64, 9);
    lemma_pow2_adds(64, 10);
    lemma_pow2_adds(32, 31);
    lemma_pow2_adds(64, 63);
}

/// `pow2(e)` for exponents that fit a `u128`.
fn pow2_u128(e: u32) -> (r: u128)
    requires
        e <= 126,
    ensures
        r as nat == pow2(e as nat),
{
    let mut r: u128 = 1;
    let mut i: u32 = 0;
    proof {
        lemma2_to64();
    }
    while i < e
        invariant
            i <= e <= 126,
            r as nat == pow2(i as nat),
        decreases e - i,
    {
        proof {
            lemma_pow2_unfold((i + 1) as nat);
            lemma_pow2_strictly_increases((i + 1) as nat, 127);
            lemma_pow2_values();
        }
        r = r * 2;
        i = i + 1;
    }
    r
}

/// The scheme's key bound on the side the sign selects; where the magnitude
/// is known to exceed the key range this is the saturated component.
fn saturated_extreme(scheme: QuantScheme, sign: bool) -> (k: i64)
    ensures
        sign ==> k as int == key_min(scheme),
        !sign ==> k as int == key_max(scheme),
{
    match scheme {
        QuantScheme::Coarse => {
            if sign {
                -0x8000_0000i64
            } else {
                0x7fff_ffffi64
            }
        },
        QuantScheme::Fine => {
            if sign {
                i64::MIN
            } else {
                i64::MAX
            }
        },
    }
}

/// Applies the sign to a truncated magnitude and saturates it to the
/// scheme's key range.
fn saturate_mag(scheme: QuantScheme, sign: bool, mag: u128) -> (k: i64)
    ensures
        k as int == saturate(
            if sign {
                -(mag as int)
            } else {
                mag as int
            },
            key_min(scheme),
            key_max(scheme),
        ),
{
    match scheme {
        QuantScheme::Coarse => {
            if sign {
                if mag >= 0x8000_0000 {
                    -0x8000_0000i64
                } else {
                    -(mag as i64)
                }
            } else {
                if mag > 0x7fff_ffff {
                    0x7fff_ffffi64
                } else {
                    mag as i64
                }
            }
        },
        QuantScheme::Fine => {
            if sign {
                if mag >= 0x8000_0000_0000_0000 {
                    i64::MIN
                } else {
                    -(mag as i64)
                }
            } else {
                if mag >= 0x8000_0000_0000_0000 {
                    i64::MAX
                } else {
                    mag as i64
                }
            }
        },
    }
}

/// Quantizes one position component: the signed scaled value truncated
/// toward zero and saturated to the scheme's key range, computed from the
/// component's bit pattern alone.
pub fn quantize_component(scheme: QuantScheme, bits: u32) -> (k: i64)
    ensures
        k as int == quant_component(scheme, bits),
{
    let sign: bool = (bits >> 31) == 1;
    let e: u32 = (bits >> 23) & 0xff;
    let m: u32 = bits & 0x7fffff;
    proof {
        assert((bits >> 23) & 0xff < 256) by (bit_vector);
        assert(bits & 0x7fffff < 0x800000) by (bit_vector);
    }
    let sig: u64 = if e == 0 {
        m as u64
    } else {
        (m as u64) + 0x800000
    };
    let scale: u64 = match scheme {
        QuantScheme::Coarse => 1_000_000,
        QuantScheme::Fine => 1_000_000_000,
    };
    proof {
        lemma_mul_upper_bound(sig as int, 0xffffff, scale as int, 1_000_000_000);
    }
    let ms: u64 = sig * scale;
    let ee: u32 = if e == 0 { 1 } else { e };
    assert(ms as int == f32_significand(bits) * scale_of(scheme));
    assert(ee as nat == f32_biased_exp(bits));
    if ee >= 150 {
        let sh: u32 = ee - 150;
        if sig == 0 {
            proof {
                lemma_mul_by_zero_is_zero(pow2(sh as nat) as int);
            }
            0i64
        } else if sh >= 74 {
            proof {
                lemma_pow2_values();
                if sh > 74 {
                    lemma_pow2_strictly_increases(74, sh as nat);
                }
                lemma_mul_inequality(1, ms as int, pow2(sh as nat) as int);
                lemma_mul_inequality(scale as int, ms as int, pow2(sh as nat) as int);
            }
            saturated_extreme(scheme, sign)
        } else {
            let p = pow2_u128(sh);
            proof {
                lemma_pow2_values();
                if sh < 73 {
                    lemma_pow2_strictly_increases(sh as nat, 73);
                }
                lemma_mul_upper_bound(ms as int, 0x3b9ac9c4653600, p as int, 0x2000000000000000000);
            }
            let mag: u128 = (ms as u128) * p;
            saturate_mag(scheme, sign, mag)
        }
    } else {
        let sh: u32 = 150 - ee;
        if sh >= 54 {
            proof {
                lemma_pow2_values();
                if sh > 54 {
                    lemma_pow2_strictly_increases(54, sh as nat);
                }
                lemma_basic_div_specific_divisor(pow2(sh as nat) as int);
            }
            0i64
        } else {
            let p = pow2_u128(sh);
            proof {
                lemma_pow2_pos(sh as nat);
            }
            let mag: u128 = (ms as u128) / (p as u128);
            saturate_mag(scheme, sign, mag)
        }
    }
}

/// Quantization key of a position under a scheme.
pub fn quantize(scheme: QuantScheme, p: &Position) -> (k: QuantKey)
    ensures
        k.model() == spec_key(scheme, *p),
{
    QuantKey {
        x: quantize_component(scheme, p.x),
        y: quantize_component(scheme, p.y),
        z: quantize_component(scheme, p.z),
    }
}

} // verus!
