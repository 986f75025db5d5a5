use vstd::prelude::*;

verus! {

/// A three-component vector of IEEE 754 single-precision values.
///
/// The protocol never computes with these values; it only moves them between
/// the client, the wire and the physics engine. They are therefore carried as
/// raw bit patterns, which makes the round trip through the codec exact.
#[derive(Debug, Clone, Copy, PartialEq, Eq, Structural)]
pub struct Vect {
    pub x: u32,
    pub y: u32,
    pub z: u32,
}

/// A rotation quaternion, each component an IEEE 754 single-precision value
/// carried as its bit pattern.
#[derive(Debug, Clone, Copy, PartialEq, Eq, Structural)]
pub struct Rot {
    pub x: u32,
    pub y: u32,
    pub z: u32,
    pub w: u32,
}

/// A rigid-body placement: a translation plus a rotation, in physics-engine
/// units.
#[derive(Debug, Clone, Copy, PartialEq, Eq, Structural)]
pub struct Isometry {
    pub translation: Vect,
    pub rotation: Rot,
}

/// A render-space transform: translation, rotation and a per-axis scale.
#[derive(Debug, Clone, Copy, PartialEq, Eq, Structural)]
pub struct Transform {
    pub translation: Vect,
    pub rotation: Rot,
    pub scale: Vect,
}

/// Linear and angular velocity of a body.
#[derive(Debug, Clone, Copy, PartialEq, Eq, Structural)]
pub struct Velocity {
    pub linvel: Vect,
    pub angvel: Vect,
}

/// The bit pattern of the single-precision value `1.0`.
pub const ONE_BITS: u32 = 0x3F80_0000;

/// The bit pattern of the single-precision value `0.0`.
pub const ZERO_BITS: u32 = 0;

impl Vect {
    /// The zero vector.
    pub fn zero() -> (r: Vect)
        ensures
            r == (Vect { x: ZERO_BITS, y: ZERO_BITS, z: ZERO_BITS }),
    {
        Vect { x: ZERO_BITS, y: ZERO_BITS, z: ZERO_BITS }
    }

    /// The vector with every component `1.0`.
    pub fn one() -> (r: Vect)
        ensures
            r == (Vect { x: ONE_BITS, y: ONE_BITS, z: ONE_BITS }),
    {
        Vect { x: ONE_BITS, y: ONE_BITS, z: ONE_BITS }
    }
}

impl Rot {
    /// The identity rotation.
    pub fn identity() -> (r: Rot)
        ensures
            r == (Rot { x: ZERO_BITS, y: ZERO_BITS, z: ZERO_BITS, w: ONE_BITS }),
    {
        Rot { x: ZERO_BITS, y: ZERO_BITS, z: ZERO_BITS, w: ONE_BITS }
    }
}

impl Isometry {
    /// The identity placement: no translation, no rotation.
    pub fn identity() -> (r: Isometry)
        ensures
            r == (Isometry { translation: Vect { x: 0, y: 0, z: 0 }, rotation: Rot { x: 0, y: 0, z: 0, w: ONE_BITS } }),
    {
        Isometry { translation: Vect::zero(), rotation: Rot::identity() }
    }
}

/// Whether the single-precision value with this bit pattern is a NaN:
/// all exponent bits set and a nonzero fraction.
pub open spec fn spec_is_nan(bits: u32) -> bool {
    bits & 0x7F80_0000 == 0x7F80_0000 && bits & 0x007F_FFFF != 0
}

/// Whether this bit pattern denotes a zero of either sign.
pub open spec fn spec_is_zero(bits: u32) -> bool {
    bits & 0x7FFF_FFFF == 0
}

/// IEEE 754 equality of two single-precision values, decided on their bit
/// patterns: equal bits are equal values unless they are NaN, and the two
/// zeroes compare equal although their bits differ.
pub open spec fn spec_float_eq(a: u32, b: u32) -> bool {
    if spec_is_nan(a) || spec_is_nan(b) {
        false
    } else {
        a == b || (spec_is_zero(a) && spec_is_zero(b))
    }
}

/// Decides `spec_is_nan` on a bit pattern.
pub fn is_nan_bits(bits: u32) -> (r: bool)
    ensures
        r == spec_is_nan(bits),
{
    bits & 0x7F80_0000 == 0x7F80_0000 && bits & 0x007F_FFFF != 0
}

/// Decides `spec_float_eq` on two bit patterns.
pub fn float_eq_bits(a: u32, b: u32) -> (r: bool)
    ensures
        r == spec_float_eq(a, b),
{
    if is_nan_bits(a) || is_nan_bits(b) {
        false
    } else {
        a == b || (a & 0x7FFF_FFFF == 0 && b & 0x7FFF_FFFF == 0)
    }
}

/// Numeric equality of two vectors, component-wise on the float bits.
pub open spec fn spec_vect_eq(a: Vect, b: Vect) -> bool {
    spec_float_eq(a.x, b.x) && spec_float_eq(a.y, b.y) && spec_float_eq(a.z, b.z)
}

/// Decides `spec_vect_eq`.
pub fn vect_eq(a: &Vect, b: &Vect) -> (r: bool)
    ensures
        r == spec_vect_eq(*a, *b),
{
    float_eq_bits(a.x, b.x) && float_eq_bits(a.y, b.y) && float_eq_bits(a.z, b.z)
}

/// Numeric equality of two velocities.
pub open spec fn spec_velocity_eq(a: Velocity, b: Velocity) -> bool {
    spec_vect_eq(a.linvel, b.linvel) && spec_vect_eq(a.angvel, b.angvel)
}

/// Decides `spec_velocity_eq`.
pub fn velocity_eq(a: &Velocity, b: &Velocity) -> (r: bool)
    ensures
        r == spec_velocity_eq(*a, *b),
{
    vect_eq(&a.linvel, &b.linvel) && vect_eq(&a.angvel, &b.angvel)
}

} // verus!
