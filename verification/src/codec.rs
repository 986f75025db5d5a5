//! The wire codec: a positional binary encoding of the request and response
//! model. Variant identity is carried by a leading tag byte, integers are
//! little-endian, lists carry a 64-bit count, and options a presence byte.
//! `decode` is the exact inverse of `encode`: see the round-trip lemmas.

use vstd::prelude::*;

use vstd::bytes::{
    lemma_auto_spec_u32_to_from_le_bytes, lemma_auto_spec_u64_to_from_le_bytes,
    spec_u32_from_le_bytes, spec_u32_to_le_bytes, spec_u64_from_le_bytes, spec_u64_to_le_bytes,
    u32_to_le_bytes, u64_to_le_bytes,
};

use crate::math::{Isometry, Rot, Transform, Vect, Velocity};
use crate::serializable::{
    CoefficientCombineRule, SerializableAdditionalMassProperties,
    SerializableColliderMassProperties, SerializableFriction, SerializableMassProperties,
    SerializableRapierConfiguration, SerializableRestitution, SerializableTimestepMode,
};

verus! {

// ---------------------------------------------------------------------------
// Primitives: specification-level encoders and parsers
// ---------------------------------------------------------------------------

/// Encoding of one byte.
pub open spec fn spec_enc_u8(x: u8) -> Seq<u8> {
    seq![x]
}

/// Parses one byte at `i`; `None` past the end.
pub open spec fn spec_parse_u8(s: Seq<u8>, i: int) -> Option<(u8, int)> {
    if 0 <= i && i + 1 <= s.len() {
        Some((s[i], i + 1))
    } else {
        None
    }
}

/// Encoding of a `bool`: one byte, `0` or `1`.
pub open spec fn spec_enc_bool(x: bool) -> Seq<u8> {
    seq![if x { 1u8 } else { 0u8 }]
}

/// Parses a `bool`; any byte other than `0` or `1` is rejected.
pub open spec fn spec_parse_bool(s: Seq<u8>, i: int) -> Option<(bool, int)> {
    match spec_parse_u8(s, i) {
        Some((b, j)) => {
            if b == 0 {
                Some((false, j))
            } else if b == 1 {
                Some((true, j))
            } else {
                None
            }
        },
        None => None,
    }
}

/// Encoding of a `u32`: four bytes, little-endian.
pub open spec fn spec_enc_u32(x: u32) -> Seq<u8> {
    spec_u32_to_le_bytes(x)
}

/// Parses a little-endian `u32`.
pub open spec fn spec_parse_u32(s: Seq<u8>, i: int) -> Option<(u32, int)> {
    if 0 <= i && i + 4 <= s.len() {
        Some((spec_u32_from_le_bytes(s.subrange(i, i + 4)), i + 4))
    } else {
        None
    }
}

/// Encoding of a `u64`: eight bytes, little-endian.
pub open spec fn spec_enc_u64(x: u64) -> Seq<u8> {
    spec_u64_to_le_bytes(x)
}

/// Parses a little-endian `u64`.
pub open spec fn spec_parse_u64(s: Seq<u8>, i: int) -> Option<(u64, int)> {
    if 0 <= i && i + 8 <= s.len() {
        Some((spec_u64_from_le_bytes(s.subrange(i, i + 8)), i + 8))
    } else {
        None
    }
}

// ---------------------------------------------------------------------------
// Splitting lemmas
// ---------------------------------------------------------------------------

/// If the bytes at `i` are the concatenation `a + b`, then the bytes at `i`
/// are `a` and the bytes just after them are `b`.
pub proof fn lemma_split_at(s: Seq<u8>, i: int, a: Seq<u8>, b: Seq<u8>)
    requires
        0 <= i,
        i + a.len() + b.len() <= s.len(),
        s.subrange(i, i + a.len() + b.len()) == a + b,
    ensures
        s.subrange(i, i + a.len() as int) == a,
        s.subrange(i + a.len() as int, i + a.len() + b.len()) == b,
{
    let la = a.len() as int;
    let lb = b.len() as int;
    let t = s.subrange(i, i + la + lb);
    assert(s.subrange(i, i + la) =~= a) by {
        assert forall|j: int| 0 <= j < la implies s.subrange(i, i + la)[j] == a[j] by {
            assert(t[j] == (a + b)[j]);
        }
    }
    assert(s.subrange(i + la, i + la + lb) =~= b) by {
        assert forall|j: int| 0 <= j < lb implies s.subrange(i + la, i + la + lb)[j] == b[j] by {
            assert(t[la + j] == (a + b)[la + j]);
        }
    }
}

/// The length facts for the primitive encoders.
pub proof fn lemma_prim_lens()
    ensures
        forall|x: u32| (#[trigger] spec_enc_u32(x)).len() == 4,
        forall|x: u64| (#[trigger] spec_enc_u64(x)).len() == 8,
{
    lemma_auto_spec_u32_to_from_le_bytes();
    lemma_auto_spec_u64_to_from_le_bytes();
}

/// Parsing inverts encoding for `u8`.
pub proof fn lemma_parse_enc_u8(x: u8, s: Seq<u8>, i: int)
    requires
        0 <= i,
        i + 1 <= s.len(),
        s.subrange(i, i + 1) == spec_enc_u8(x),
    ensures
        spec_parse_u8(s, i) == Some((x, i + 1)),
{
    assert(s.subrange(i, i + 1)[0] == s[i]);
}

/// Parsing inverts encoding for `bool`.
pub proof fn lemma_parse_enc_bool(x: bool, s: Seq<u8>, i: int)
    requires
        0 <= i,
        i + 1 <= s.len(),
        s.subrange(i, i + 1) == spec_enc_bool(x),
    ensures
        spec_parse_bool(s, i) == Some((x, i + 1)),
{
    assert(s.subrange(i, i + 1)[0] == s[i]);
}

/// Parsing inverts encoding for `u32`.
pub proof fn lemma_parse_enc_u32(x: u32, s: Seq<u8>, i: int)
    requires
        0 <= i,
        i + 4 <= s.len(),
        s.subrange(i, i + 4) == spec_enc_u32(x),
    ensures
        spec_parse_u32(s, i) == Some((x, i + 4)),
{
    lemma_auto_spec_u32_to_from_le_bytes();
    assert(spec_u32_to_le_bytes(x).len() == 4);
    assert(spec_u32_from_le_bytes(spec_u32_to_le_bytes(x)) == x);
}

/// Parsing inverts encoding for `u64`.
pub proof fn lemma_parse_enc_u64(x: u64, s: Seq<u8>, i: int)
    requires
        0 <= i,
        i + 8 <= s.len(),
        s.subrange(i, i + 8) == spec_enc_u64(x),
    ensures
        spec_parse_u64(s, i) == Some((x, i + 8)),
{
    lemma_auto_spec_u64_to_from_le_bytes();
    assert(spec_u64_to_le_bytes(x).len() == 8);
    assert(spec_u64_from_le_bytes(spec_u64_to_le_bytes(x)) == x);
}

// ---------------------------------------------------------------------------
// Primitives: executable encoders and decoders
// ---------------------------------------------------------------------------

/// Appends the encoding of a byte.
pub fn enc_u8_into(out: &mut Vec<u8>, x: u8)
    ensures
        final(out)@ == old(out)@ + spec_enc_u8(x),
{
    out.push(x);
    assert(out@ =~= old(out)@ + spec_enc_u8(x));
}

/// Appends the encoding of a `bool`.
pub fn enc_bool_into(out: &mut Vec<u8>, x: bool)
    ensures
        final(out)@ == old(out)@ + spec_enc_bool(x),
{
    out.push(if x { 1 } else { 0 });
    assert(out@ =~= old(out)@ + spec_enc_bool(x));
}

/// Appends the encoding of a `u32`.
pub fn enc_u32_into(out: &mut Vec<u8>, x: u32)
    ensures
        final(out)@ == old(out)@ + spec_enc_u32(x),
{
    let mut bytes = u32_to_le_bytes(x);
    out.append(&mut bytes);
}

/// Appends the encoding of a `u64`.
pub fn enc_u64_into(out: &mut Vec<u8>, x: u64)
    ensures
        final(out)@ == old(out)@ + spec_enc_u64(x),
{
    let mut bytes = u64_to_le_bytes(x);
    out.append(&mut bytes);
}

/// Decodes one byte.
pub fn dec_u8(s: &Vec<u8>, pos: usize) -> (r: Option<(u8, usize)>)
    ensures
        match r {
            Some((v, j)) => {
                &&& spec_parse_u8(s@, pos as int) == Some((v, j as int))
                &&& pos < j <= s@.len()
            },
            None => spec_parse_u8(s@, pos as int) is None,
        },
{
    if pos < s.len() {
        Some((s[pos], pos + 1))
    } else {
        None
    }
}

/// Decodes a `bool`.
pub fn dec_bool(s: &Vec<u8>, pos: usize) -> (r: Option<(bool, usize)>)
    ensures
        match r {
            Some((v, j)) => {
                &&& spec_parse_bool(s@, pos as int) == Some((v, j as int))
                &&& pos < j <= s@.len()
            },
            None => spec_parse_bool(s@, pos as int) is None,
        },
{
    match dec_u8(s, pos) {
        Some((b, j)) => {
            if b == 0 {
                Some((false, j))
            } else if b == 1 {
                Some((true, j))
            } else {
                None
            }
        },
        None => None,
    }
}

/// Decodes a little-endian `u32`.
pub fn dec_u32(s: &Vec<u8>, pos: usize) -> (r: Option<(u32, usize)>)
    ensures
        match r {
            Some((v, j)) => {
                &&& spec_parse_u32(s@, pos as int) == Some((v, j as int))
                &&& pos < j <= s@.len()
            },
            None => spec_parse_u32(s@, pos as int) is None,
        },
{
    if pos <= s.len() && s.len() - pos >= 4 {
        let slice = vstd::slice::slice_subrange(s.as_slice(), pos, pos + 4);
        let v = vstd::bytes::u32_from_le_bytes(slice);
        Some((v, pos + 4))
    } else {
        None
    }
}

/// Decodes a little-endian `u64`.
pub fn dec_u64(s: &Vec<u8>, pos: usize) -> (r: Option<(u64, usize)>)
    ensures
        match r {
            Some((v, j)) => {
                &&& spec_parse_u64(s@, pos as int) == Some((v, j as int))
                &&& pos < j <= s@.len()
            },
            None => spec_parse_u64(s@, pos as int) is None,
        },
{
    if pos <= s.len() && s.len() - pos >= 8 {
        let slice = vstd::slice::slice_subrange(s.as_slice(), pos, pos + 8);
        let v = vstd::bytes::u64_from_le_bytes(slice);
        Some((v, pos + 8))
    } else {
        None
    }
}

// ---------------------------------------------------------------------------
// Vectors, rotations, placements
// ---------------------------------------------------------------------------

/// Encoding of a `Vect`: its three components.
pub open spec fn spec_enc_vect(v: Vect) -> Seq<u8> {
    spec_enc_u32(v.x) + spec_enc_u32(v.y) + spec_enc_u32(v.z)
}

/// Parses a `Vect`.
pub open spec fn spec_parse_vect(s: Seq<u8>, i: int) -> Option<(Vect, int)> {
    match spec_parse_u32(s, i) {
        Some((x, i1)) => match spec_parse_u32(s, i1) {
            Some((y, i2)) => match spec_parse_u32(s, i2) {
                Some((z, i3)) => Some((Vect { x, y, z }, i3)),
                None => None,
            },
            None => None,
        },
        None => None,
    }
}

/// Parsing inverts encoding for `Vect`.
pub proof fn lemma_parse_enc_vect(v: Vect, s: Seq<u8>, i: int)
    requires
        0 <= i,
        i + spec_enc_vect(v).len() <= s.len(),
        s.subrange(i, i + spec_enc_vect(v).len()) == spec_enc_vect(v),
    ensures
        spec_enc_vect(v).len() == 12,
        spec_parse_vect(s, i) == Some((v, i + 12)),
{
    lemma_prim_lens();
    let a = spec_enc_u32(v.x);
    let b = spec_enc_u32(v.y);
    let c = spec_enc_u32(v.z);
    lemma_split_at(s, i, a + b, c);
    lemma_split_at(s, i, a, b);
    lemma_parse_enc_u32(v.x, s, i);
    lemma_parse_enc_u32(v.y, s, i + 4);
    lemma_parse_enc_u32(v.z, s, i + 8);
}

/// Appends the encoding of a `Vect`.
pub fn enc_vect_into(out: &mut Vec<u8>, v: &Vect)
    ensures
        final(out)@ == old(out)@ + spec_enc_vect(*v),
{
    enc_u32_into(out, v.x);
    enc_u32_into(out, v.y);
    enc_u32_into(out, v.z);
    assert(out@ =~= old(out)@ + spec_enc_vect(*v));
}

/// Decodes a `Vect`.
pub fn dec_vect(s: &Vec<u8>, pos: usize) -> (r: Option<(Vect, usize)>)
    ensures
        match r {
            Some((v, j)) => {
                &&& spec_parse_vect(s@, pos as int) == Some((v, j as int))
                &&& pos < j <= s@.len()
            },
            None => spec_parse_vect(s@, pos as int) is None,
        },
{
    match dec_u32(s, pos) {
        Some((x, i1)) => match dec_u32(s, i1) {
            Some((y, i2)) => match dec_u32(s, i2) {
                Some((z, i3)) => Some((Vect { x, y, z }, i3)),
                None => None,
            },
            None => None,
        },
        None => None,
    }
}

/// Encoding of a `Rot`: its four components.
pub open spec fn spec_enc_rot(v: Rot) -> Seq<u8> {
    spec_enc_u32(v.x) + spec_enc_u32(v.y) + spec_enc_u32(v.z) + spec_enc_u32(v.w)
}

/// Parses a `Rot`.
pub open spec fn spec_parse_rot(s: Seq<u8>, i: int) -> Option<(Rot, int)> {
    match spec_parse_u32(s, i) {
        Some((x, i1)) => match spec_parse_u32(s, i1) {
            Some((y, i2)) => match spec_parse_u32(s, i2) {
                Some((z, i3)) => match spec_parse_u32(s, i3) {
                    Some((w, i4)) => Some((Rot { x, y, z, w }, i4)),
                    None => None,
                },
                None => None,
            },
            None => None,
        },
        None => None,
    }
}

/// Parsing inverts encoding for `Rot`.
pub proof fn lemma_parse_enc_rot(v: Rot, s: Seq<u8>, i: int)
    requires
        0 <= i,
        i + spec_enc_rot(v).len() <= s.len(),
        s.subrange(i, i + spec_enc_rot(v).len()) == spec_enc_rot(v),
    ensures
        spec_enc_rot(v).len() == 16,
        spec_parse_rot(s, i) == Some((v, i + 16)),
{
    lemma_prim_lens();
    let a = spec_enc_u32(v.x);
    let b = spec_enc_u32(v.y);
    let c = spec_enc_u32(v.z);
    let d = spec_enc_u32(v.w);
    lemma_split_at(s, i, a + b + c, d);
    lemma_split_at(s, i, a + b, c);
    lemma_split_at(s, i, a, b);
    lemma_parse_enc_u32(v.x, s, i);
    lemma_parse_enc_u32(v.y, s, i + 4);
    lemma_parse_enc_u32(v.z, s, i + 8);
    lemma_parse_enc_u32(v.w, s, i + 12);
}

/// Appends the encoding of a `Rot`.
pub fn enc_rot_into(out: &mut Vec<u8>, v: &Rot)
    ensures
        final(out)@ == old(out)@ + spec_enc_rot(*v),
{
    enc_u32_into(out, v.x);
    enc_u32_into(out, v.y);
    enc_u32_into(out, v.z);
    enc_u32_into(out, v.w);
    assert(out@ =~= old(out)@ + spec_enc_rot(*v));
}

/// Decodes a `Rot`.
pub fn dec_rot(s: &Vec<u8>, pos: usize) -> (r: Option<(Rot, usize)>)
    ensures
        match r {
            Some((v, j)) => {
                &&& spec_parse_rot(s@, pos as int) == Some((v, j as int))
                &&& pos < j <= s@.len()
            },
            None => spec_parse_rot(s@, pos as int) is None,
        },
{
    match dec_u32(s, pos) {
        Some((x, i1)) => match dec_u32(s, i1) {
            Some((y, i2)) => match dec_u32(s, i2) {
                Some((z, i3)) => match dec_u32(s, i3) {
                    Some((w, i4)) => Some((Rot { x, y, z, w }, i4)),
                    None => None,
                },
                None => None,
            },
            None => None,
        },
        None => None,
    }
}

/// Encoding of an `Isometry`: translation then rotation.
pub open spec fn spec_enc_isometry(v: Isometry) -> Seq<u8> {
    spec_enc_vect(v.translation) + spec_enc_rot(v.rotation)
}

/// Parses an `Isometry`.
pub open spec fn spec_parse_isometry(s: Seq<u8>, i: int) -> Option<(Isometry, int)> {
    match spec_parse_vect(s, i) {
        Some((t, i1)) => match spec_parse_rot(s, i1) {
            Some((rot, i2)) => Some((Isometry { translation: t, rotation: rot }, i2)),
            None => None,
        },
        None => None,
    }
}

/// Parsing inverts encoding for `Isometry`.
pub proof fn lemma_parse_enc_isometry(v: Isometry, s: Seq<u8>, i: int)
    requires
        0 <= i,
        i + spec_enc_isometry(v).len() <= s.len(),
        s.subrange(i, i + spec_enc_isometry(v).len()) == spec_enc_isometry(v),
    ensures
        spec_enc_isometry(v).len() == 28,
        spec_parse_isometry(s, i) == Some((v, i + 28)),
{
    lemma_prim_lens();
    lemma_split_at(s, i, spec_enc_vect(v.translation), spec_enc_rot(v.rotation));
    lemma_parse_enc_vect(v.translation, s, i);
    lemma_parse_enc_rot(v.rotation, s, i + 12);
}

/// Appends the encoding of an `Isometry`.
pub fn enc_isometry_into(out: &mut Vec<u8>, v: &Isometry)
    ensures
        final(out)@ == old(out)@ + spec_enc_isometry(*v),
{
    enc_vect_into(out, &v.translation);
    enc_rot_into(out, &v.rotation);
    assert(out@ =~= old(out)@ + spec_enc_isometry(*v));
}

/// Decodes an `Isometry`.
pub fn dec_isometry(s: &Vec<u8>, pos: usize) -> (r: Option<(Isometry, usize)>)
    ensures
        match r {
            Some((v, j)) => {
                &&& spec_parse_isometry(s@, pos as int) == Some((v, j as int))
                &&& pos < j <= s@.len()
            },
            None => spec_parse_isometry(s@, pos as int) is None,
        },
{
    match dec_vect(s, pos) {
        Some((t, i1)) => match dec_rot(s, i1) {
            Some((rot, i2)) => Some((Isometry { translation: t, rotation: rot }, i2)),
            None => None,
        },
        None => None,
    }
}

/// Encoding of a `Transform`: translation, rotation, scale.
pub open spec fn spec_enc_transform(v: Transform) -> Seq<u8> {
    spec_enc_vect(v.translation) + spec_enc_rot(v.rotation) + spec_enc_vect(v.scale)
}

/// Parses a `Transform`.
pub open spec fn spec_parse_transform(s: Seq<u8>, i: int) -> Option<(Transform, int)> {
    match spec_parse_vect(s, i) {
        Some((t, i1)) => match spec_parse_rot(s, i1) {
            Some((rot, i2)) => match spec_parse_vect(s, i2) {
                Some((sc, i3)) => Some(
                    (Transform { translation: t, rotation: rot, scale: sc }, i3),
                ),
                None => None,
            },
            None => None,
        },
        None => None,
    }
}

/// Parsing inverts encoding for `Transform`.
pub proof fn lemma_parse_enc_transform(v: Transform, s: Seq<u8>, i: int)
    requires
        0 <= i,
        i + spec_enc_transform(v).len() <= s.len(),
        s.subrange(i, i + spec_enc_transform(v).len()) == spec_enc_transform(v),
    ensures
        spec_enc_transform(v).len() == 40,
        spec_parse_transform(s, i) == Some((v, i + 40)),
{
    lemma_prim_lens();
    let a = spec_enc_vect(v.translation);
    let b = spec_enc_rot(v.rotation);
    let c = spec_enc_vect(v.scale);
    lemma_split_at(s, i, a + b, c);
    lemma_split_at(s, i, a, b);
    lemma_parse_enc_vect(v.translation, s, i);
    lemma_parse_enc_rot(v.rotation, s, i + 12);
    lemma_parse_enc_vect(v.scale, s, i + 28);
}

/// Appends the encoding of a `Transform`.
pub fn enc_transform_into(out: &mut Vec<u8>, v: &Transform)
    ensures
        final(out)@ == old(out)@ + spec_enc_transform(*v),
{
    enc_vect_into(out, &v.translation);
    enc_rot_into(out, &v.rotation);
    enc_vect_into(out, &v.scale);
    assert(out@ =~= old(out)@ + spec_enc_transform(*v));
}

/// Decodes a `Transform`.
pub fn dec_transform(s: &Vec<u8>, pos: usize) -> (r: Option<(Transform, usize)>)
    ensures
        match r {
            Some((v, j)) => {
                &&& spec_parse_transform(s@, pos as int) == Some((v, j as int))
                &&& pos < j <= s@.len()
            },
            None => spec_parse_transform(s@, pos as int) is None,
        },
{
    match dec_vect(s, pos) {
        Some((t, i1)) => match dec_rot(s, i1) {
            Some((rot, i2)) => match dec_vect(s, i2) {
                Some((sc, i3)) => Some(
                    (Transform { translation: t, rotation: rot, scale: sc }, i3),
                ),
                None => None,
            },
            None => None,
        },
        None => None,
    }
}

/// Encoding of a `Velocity`: linear then angular.
pub open spec fn spec_enc_velocity(v: Velocity) -> Seq<u8> {
    spec_enc_vect(v.linvel) + spec_enc_vect(v.angvel)
}

/// Parses a `Velocity`.
pub open spec fn spec_parse_velocity(s: Seq<u8>, i: int) -> Option<(Velocity, int)> {
    match spec_parse_vect(s, i) {
        Some((l, i1)) => match spec_parse_vect(s, i1) {
            Some((a, i2)) => Some((Velocity { linvel: l, angvel: a }, i2)),
            None => None,
        },
        None => None,
    }
}

/// Parsing inverts encoding for `Velocity`.
pub proof fn lemma_parse_enc_velocity(v: Velocity, s: Seq<u8>, i: int)
    requires
        0 <= i,
        i + spec_enc_velocity(v).len() <= s.len(),
        s.subrange(i, i + spec_enc_velocity(v).len()) == spec_enc_velocity(v),
    ensures
        spec_enc_velocity(v).len() == 24,
        spec_parse_velocity(s, i) == Some((v, i + 24)),
{
    lemma_prim_lens();
    lemma_split_at(s, i, spec_enc_vect(v.linvel), spec_enc_vect(v.angvel));
    lemma_parse_enc_vect(v.linvel, s, i);
    lemma_parse_enc_vect(v.angvel, s, i + 12);
}

/// Appends the encoding of a `Velocity`.
pub fn enc_velocity_into(out: &mut Vec<u8>, v: &Velocity)
    ensures
        final(out)@ == old(out)@ + spec_enc_velocity(*v),
{
    enc_vect_into(out, &v.linvel);
    enc_vect_into(out, &v.angvel);
    assert(out@ =~= old(out)@ + spec_enc_velocity(*v));
}

/// Decodes a `Velocity`.
pub fn dec_velocity(s: &Vec<u8>, pos: usize) -> (r: Option<(Velocity, usize)>)
    ensures
        match r {
            Some((v, j)) => {
                &&& spec_parse_velocity(s@, pos as int) == Some((v, j as int))
                &&& pos < j <= s@.len()
            },
            None => spec_parse_velocity(s@, pos as int) is None,
        },
{
    match dec_vect(s, pos) {
        Some((l, i1)) => match dec_vect(s, i1) {
            Some((a, i2)) => Some((Velocity { linvel: l, angvel: a }, i2)),
            None => None,
        },
        None => None,
    }
}

// ---------------------------------------------------------------------------
// Combine rules, mass properties, friction, restitution
// ---------------------------------------------------------------------------

/// Encoding of a `CoefficientCombineRule`: one tag byte.
pub open spec fn spec_enc_combine_rule(v: CoefficientCombineRule) -> Seq<u8> {
    match v {
        CoefficientCombineRule::Average => seq![0u8],
        CoefficientCombineRule::Min => seq![1u8],
        CoefficientCombineRule::Multiply => seq![2u8],
        CoefficientCombineRule::Max => seq![3u8],
    }
}

/// Parses a `CoefficientCombineRule`.
pub open spec fn spec_parse_combine_rule(s: Seq<u8>, i: int) -> Option<(
    CoefficientCombineRule,
    int,
)> {
    match spec_parse_u8(s, i) {
        Some((t, j)) => {
            if t == 0 {
                Some((CoefficientCombineRule::Average, j))
            } else if t == 1 {
                Some((CoefficientCombineRule::Min, j))
            } else if t == 2 {
                Some((CoefficientCombineRule::Multiply, j))
            } else if t == 3 {
                Some((CoefficientCombineRule::Max, j))
            } else {
                None
            }
        },
        None => None,
    }
}

/// Parsing inverts encoding for `CoefficientCombineRule`.
pub proof fn lemma_parse_enc_combine_rule(v: CoefficientCombineRule, s: Seq<u8>, i: int)
    requires
        0 <= i,
        i + spec_enc_combine_rule(v).len() <= s.len(),
        s.subrange(i, i + spec_enc_combine_rule(v).len()) == spec_enc_combine_rule(v),
    ensures
        spec_parse_combine_rule(s, i) == Some((v, i + spec_enc_combine_rule(v).len())),
{
    assert(s.subrange(i, i + 1)[0] == s[i]);
}

/// Appends the encoding of a `CoefficientCombineRule`.
pub fn enc_combine_rule_into(out: &mut Vec<u8>, v: &CoefficientCombineRule)
    ensures
        final(out)@ == old(out)@ + spec_enc_combine_rule(*v),
{
    match v {
        CoefficientCombineRule::Average => enc_u8_into(out, 0),
        CoefficientCombineRule::Min => enc_u8_into(out, 1),
        CoefficientCombineRule::Multiply => enc_u8_into(out, 2),
        CoefficientCombineRule::Max => enc_u8_into(out, 3),
    }
}

/// Decodes a `CoefficientCombineRule`.
pub fn dec_combine_rule(s: &Vec<u8>, pos: usize) -> (r: Option<(CoefficientCombineRule, usize)>)
    ensures
        match r {
            Some((v, j)) => {
                &&& spec_parse_combine_rule(s@, pos as int) == Some((v, j as int))
                &&& pos < j <= s@.len()
            },
            None => spec_parse_combine_rule(s@, pos as int) is None,
        },
{
    match dec_u8(s, pos) {
        Some((t, j)) => {
            if t == 0 {
                Some((CoefficientCombineRule::Average, j))
            } else if t == 1 {
                Some((CoefficientCombineRule::Min, j))
            } else if t == 2 {
                Some((CoefficientCombineRule::Multiply, j))
            } else if t == 3 {
                Some((CoefficientCombineRule::Max, j))
            } else {
                None
            }
        },
        None => None,
    }
}

/// Encoding of full mass properties: centre of mass, mass, inertia frame,
/// principal inertia.
pub open spec fn spec_enc_mass_properties(v: SerializableMassProperties) -> Seq<u8> {
    spec_enc_vect(v.local_center_of_mass) + spec_enc_u32(v.mass) + spec_enc_rot(
        v.principal_inertia_local_frame,
    ) + spec_enc_vect(v.principal_inertia)
}

/// Parses full mass properties.
pub open spec fn spec_parse_mass_properties(s: Seq<u8>, i: int) -> Option<(
    SerializableMassProperties,
    int,
)> {
    match spec_parse_vect(s, i) {
        Some((com, i1)) => match spec_parse_u32(s, i1) {
            Some((mass, i2)) => match spec_parse_rot(s, i2) {
                Some((frame, i3)) => match spec_parse_vect(s, i3) {
                    Some((pi, i4)) => Some(
                        (
                            SerializableMassProperties {
                                local_center_of_mass: com,
                                mass,
                                principal_inertia_local_frame: frame,
                                principal_inertia: pi,
                            },
                            i4,
                        ),
                    ),
                    None => None,
                },
                None => None,
            },
            None => None,
        },
        None => None,
    }
}

/// Parsing inverts encoding for `SerializableMassProperties`.
pub proof fn lemma_parse_enc_mass_properties(v: SerializableMassProperties, s: Seq<u8>, i: int)
    requires
        0 <= i,
        i + spec_enc_mass_properties(v).len() <= s.len(),
        s.subrange(i, i + spec_enc_mass_properties(v).len()) == spec_enc_mass_properties(v),
    ensures
        spec_parse_mass_properties(s, i) == Some((v, i + spec_enc_mass_properties(v).len())),
{
    lemma_prim_lens();
    let a = spec_enc_vect(v.local_center_of_mass);
    let b = spec_enc_u32(v.mass);
    let c = spec_enc_rot(v.principal_inertia_local_frame);
    let d = spec_enc_vect(v.principal_inertia);
    lemma_split_at(s, i, a + b + c, d);
    lemma_split_at(s, i, a + b, c);
    lemma_split_at(s, i, a, b);
    lemma_parse_enc_vect(v.local_center_of_mass, s, i);
    lemma_parse_enc_u32(v.mass, s, i + 12);
    lemma_parse_enc_rot(v.principal_inertia_local_frame, s, i + 16);
    lemma_parse_enc_vect(v.principal_inertia, s, i + 32);
}

/// Appends the encoding of `SerializableMassProperties`.
pub fn enc_mass_properties_into(out: &mut Vec<u8>, v: &SerializableMassProperties)
    ensures
        final(out)@ == old(out)@ + spec_enc_mass_properties(*v),
{
    enc_vect_into(out, &v.local_center_of_mass);
    enc_u32_into(out, v.mass);
    enc_rot_into(out, &v.principal_inertia_local_frame);
    enc_vect_into(out, &v.principal_inertia);
    assert(out@ =~= old(out)@ + spec_enc_mass_properties(*v));
}

/// Decodes `SerializableMassProperties`.
pub fn dec_mass_properties(s: &Vec<u8>, pos: usize) -> (r: Option<(
    SerializableMassProperties,
    usize,
)>)
    ensures
        match r {
            Some((v, j)) => {
                &&& spec_parse_mass_properties(s@, pos as int) == Some((v, j as int))
                &&& pos < j <= s@.len()
            },
            None => spec_parse_mass_properties(s@, pos as int) is None,
        },
{
    match dec_vect(s, pos) {
        Some((com, i1)) => match dec_u32(s, i1) {
            Some((mass, i2)) => match dec_rot(s, i2) {
                Some((frame, i3)) => match dec_vect(s, i3) {
                    Some((pi, i4)) => Some(
                        (
                            SerializableMassProperties {
                                local_center_of_mass: com,
                                mass,
                                principal_inertia_local_frame: frame,
                                principal_inertia: pi,
                            },
                            i4,
                        ),
                    ),
                    None => None,
                },
                None => None,
            },
            None => None,
        },
        None => None,
    }
}

/// Encoding of collider mass properties: a tag byte then the payload.
pub open spec fn spec_enc_collider_mass_properties(
    v: SerializableColliderMassProperties,
) -> Seq<u8> {
    match v {
        SerializableColliderMassProperties::Density(d) => seq![0u8] + spec_enc_u32(d),
        SerializableColliderMassProperties::Mass(m) => seq![1u8] + spec_enc_u32(m),
        SerializableColliderMassProperties::MassProperties(p) => seq![2u8]
            + spec_enc_mass_properties(p),
    }
}

/// Parses collider mass properties.
pub open spec fn spec_parse_collider_mass_properties(s: Seq<u8>, i: int) -> Option<(
    SerializableColliderMassProperties,
    int,
)> {
    match spec_parse_u8(s, i) {
        Some((t, j)) => {
            if t == 0 {
                match spec_parse_u32(s, j) {
                    Some((d, k)) => Some((SerializableColliderMassProperties::Density(d), k)),
                    None => None,
                }
            } else if t == 1 {
                match spec_parse_u32(s, j) {
                    Some((m, k)) => Some((SerializableColliderMassProperties::Mass(m), k)),
                    None => None,
                }
            } else if t == 2 {
                match spec_parse_mass_properties(s, j) {
                    Some((p, k)) => Some(
                        (SerializableColliderMassProperties::MassProperties(p), k),
                    ),
                    None => None,
                }
            } else {
                None
            }
        },
        None => None,
    }
}

/// Parsing inverts encoding for `SerializableColliderMassProperties`.
pub proof fn lemma_parse_enc_collider_mass_properties(
    v: SerializableColliderMassProperties,
    s: Seq<u8>,
    i: int,
)
    requires
        0 <= i,
        i + spec_enc_collider_mass_properties(v).len() <= s.len(),
        s.subrange(i, i + spec_enc_collider_mass_properties(v).len())
            == spec_enc_collider_mass_properties(v),
    ensures
        spec_parse_collider_mass_properties(s, i) == Some(
            (v, i + spec_enc_collider_mass_properties(v).len()),
        ),
{
    lemma_prim_lens();
    match v {
        SerializableColliderMassProperties::Density(d) => {
            lemma_split_at(s, i, seq![0u8], spec_enc_u32(d));
            lemma_parse_enc_u8(0, s, i);
            lemma_parse_enc_u32(d, s, i + 1);
        },
        SerializableColliderMassProperties::Mass(m) => {
            lemma_split_at(s, i, seq![1u8], spec_enc_u32(m));
            lemma_parse_enc_u8(1, s, i);
            lemma_parse_enc_u32(m, s, i + 1);
        },
        SerializableColliderMassProperties::MassProperties(p) => {
            lemma_split_at(s, i, seq![2u8], spec_enc_mass_properties(p));
            lemma_parse_enc_u8(2, s, i);
            lemma_parse_enc_mass_properties(p, s, i + 1);
        },
    }
}

/// Appends the encoding of `SerializableColliderMassProperties`.
pub fn enc_collider_mass_properties_into(
    out: &mut Vec<u8>,
    v: &SerializableColliderMassProperties,
)
    ensures
        final(out)@ == old(out)@ + spec_enc_collider_mass_properties(*v),
{
    match v {
        SerializableColliderMassProperties::Density(d) => {
            enc_u8_into(out, 0);
            enc_u32_into(out, *d);
        },
        SerializableColliderMassProperties::Mass(m) => {
            enc_u8_into(out, 1);
            enc_u32_into(out, *m);
        },
        SerializableColliderMassProperties::MassProperties(p) => {
            enc_u8_into(out, 2);
            enc_mass_properties_into(out, p);
        },
    }
    assert(out@ =~= old(out)@ + spec_enc_collider_mass_properties(*v));
}

/// Decodes `SerializableColliderMassProperties`.
pub fn dec_collider_mass_properties(s: &Vec<u8>, pos: usize) -> (r: Option<(
    SerializableColliderMassProperties,
    usize,
)>)
    ensures
        match r {
            Some((v, j)) => {
                &&& spec_parse_collider_mass_properties(s@, pos as int) == Some((v, j as int))
                &&& pos < j <= s@.len()
            },
            None => spec_parse_collider_mass_properties(s@, pos as int) is None,
        },
{
    match dec_u8(s, pos) {
        Some((t, j)) => {
            if t == 0 {
                match dec_u32(s, j) {
                    Some((d, k)) => Some((SerializableColliderMassProperties::Density(d), k)),
                    None => None,
                }
            } else if t == 1 {
                match dec_u32(s, j) {
                    Some((m, k)) => Some((SerializableColliderMassProperties::Mass(m), k)),
                    None => None,
                }
            } else if t == 2 {
                match dec_mass_properties(s, j) {
                    Some((p, k)) => Some(
                        (SerializableColliderMassProperties::MassProperties(p), k),
                    ),
                    None => None,
                }
            } else {
                None
            }
        },
        None => None,
    }
}

/// Encoding of additional mass properties: a tag byte then the payload.
pub open spec fn spec_enc_additional_mass_properties(
    v: SerializableAdditionalMassProperties,
) -> Seq<u8> {
    match v {
        SerializableAdditionalMassProperties::Mass(m) => seq![0u8] + spec_enc_u32(m),
        SerializableAdditionalMassProperties::MassProperties(p) => seq![1u8]
            + spec_enc_mass_properties(p),
    }
}

/// Parses additional mass properties.
pub open spec fn spec_parse_additional_mass_properties(s: Seq<u8>, i: int) -> Option<(
    SerializableAdditionalMassProperties,
    int,
)> {
    match spec_parse_u8(s, i) {
        Some((t, j)) => {
            if t == 0 {
                match spec_parse_u32(s, j) {
                    Some((m, k)) => Some((SerializableAdditionalMassProperties::Mass(m), k)),
                    None => None,
                }
            } else if t == 1 {
                match spec_parse_mass_properties(s, j) {
                    Some((p, k)) => Some(
                        (SerializableAdditionalMassProperties::MassProperties(p), k),
                    ),
                    None => None,
                }
            } else {
                None
            }
        },
        None => None,
    }
}

/// Parsing inverts encoding for `SerializableAdditionalMassProperties`.
pub proof fn lemma_parse_enc_additional_mass_properties(
    v: SerializableAdditionalMassProperties,
    s: Seq<u8>,
    i: int,
)
    requires
        0 <= i,
        i + spec_enc_additional_mass_properties(v).len() <= s.len(),
        s.subrange(i, i + spec_enc_additional_mass_properties(v).len())
            == spec_enc_additional_mass_properties(v),
    ensures
        spec_parse_additional_mass_properties(s, i) == Some(
            (v, i + spec_enc_additional_mass_properties(v).len()),
        ),
{
    lemma_prim_lens();
    match v {
        SerializableAdditionalMassProperties::Mass(m) => {
            lemma_split_at(s, i, seq![0u8], spec_enc_u32(m));
            lemma_parse_enc_u8(0, s, i);
            lemma_parse_enc_u32(m, s, i + 1);
        },
        SerializableAdditionalMassProperties::MassProperties(p) => {
            lemma_split_at(s, i, seq![1u8], spec_enc_mass_properties(p));
            lemma_parse_enc_u8(1, s, i);
            lemma_parse_enc_mass_properties(p, s, i + 1);
        },
    }
}

/// Appends the encoding of `SerializableAdditionalMassProperties`.
pub fn enc_additional_mass_properties_into(
    out: &mut Vec<u8>,
    v: &SerializableAdditionalMassProperties,
)
    ensures
        final(out)@ == old(out)@ + spec_enc_additional_mass_properties(*v),
{
    match v {
        SerializableAdditionalMassProperties::Mass(m) => {
            enc_u8_into(out, 0);
            enc_u32_into(out, *m);
        },
        SerializableAdditionalMassProperties::MassProperties(p) => {
            enc_u8_into(out, 1);
            enc_mass_properties_into(out, p);
        },
    }
    assert(out@ =~= old(out)@ + spec_enc_additional_mass_properties(*v));
}

/// Decodes `SerializableAdditionalMassProperties`.
pub fn dec_additional_mass_properties(s: &Vec<u8>, pos: usize) -> (r: Option<(
    SerializableAdditionalMassProperties,
    usize,
)>)
    ensures
        match r {
            Some((v, j)) => {
                &&& spec_parse_additional_mass_properties(s@, pos as int) == Some((v, j as int))
                &&& pos < j <= s@.len()
            },
            None => spec_parse_additional_mass_properties(s@, pos as int) is None,
        },
{
    match dec_u8(s, pos) {
        Some((t, j)) => {
            if t == 0 {
                match dec_u32(s, j) {
                    Some((m, k)) => Some((SerializableAdditionalMassProperties::Mass(m), k)),
                    None => None,
                }
            } else if t == 1 {
                match dec_mass_properties(s, j) {
                    Some((p, k)) => Some(
                        (SerializableAdditionalMassProperties::MassProperties(p), k),
                    ),
                    None => None,
                }
            } else {
                None
            }
        },
        None => None,
    }
}

/// Encoding of a friction description: coefficient bits then combine rule.
pub open spec fn spec_enc_friction(v: SerializableFriction) -> Seq<u8> {
    spec_enc_u32(v.coefficient) + spec_enc_combine_rule(v.combine_rule)
}

/// Parses a friction description.
pub open spec fn spec_parse_friction(s: Seq<u8>, i: int) -> Option<(SerializableFriction, int)> {
    match spec_parse_u32(s, i) {
        Some((c, i1)) => match spec_parse_combine_rule(s, i1) {
            Some((rule, i2)) => Some(
                (SerializableFriction { coefficient: c, combine_rule: rule }, i2),
            ),
            None => None,
        },
        None => None,
    }
}

/// Parsing inverts encoding for `SerializableFriction`.
pub proof fn lemma_parse_enc_friction(v: SerializableFriction, s: Seq<u8>, i: int)
    requires
        0 <= i,
        i + spec_enc_friction(v).len() <= s.len(),
        s.subrange(i, i + spec_enc_friction(v).len()) == spec_enc_friction(v),
    ensures
        spec_parse_friction(s, i) == Some((v, i + spec_enc_friction(v).len())),
{
    lemma_prim_lens();
    lemma_split_at(s, i, spec_enc_u32(v.coefficient), spec_enc_combine_rule(v.combine_rule));
    lemma_parse_enc_u32(v.coefficient, s, i);
    lemma_parse_enc_combine_rule(v.combine_rule, s, i + 4);
}

/// Appends the encoding of `SerializableFriction`.
pub fn enc_friction_into(out: &mut Vec<u8>, v: &SerializableFriction)
    ensures
        final(out)@ == old(out)@ + spec_enc_friction(*v),
{
    enc_u32_into(out, v.coefficient);
    enc_combine_rule_into(out, &v.combine_rule);
    assert(out@ =~= old(out)@ + spec_enc_friction(*v));
}

/// Decodes `SerializableFriction`.
pub fn dec_friction(s: &Vec<u8>, pos: usize) -> (r: Option<(SerializableFriction, usize)>)
    ensures
        match r {
            Some((v, j)) => {
                &&& spec_parse_friction(s@, pos as int) == Some((v, j as int))
                &&& pos < j <= s@.len()
            },
            None => spec_parse_friction(s@, pos as int) is None,
        },
{
    match dec_u32(s, pos) {
        Some((c, i1)) => match dec_combine_rule(s, i1) {
            Some((rule, i2)) => Some(
                (SerializableFriction { coefficient: c, combine_rule: rule }, i2),
            ),
            None => None,
        },
        None => None,
    }
}

/// Encoding of a restitution description: coefficient bits then combine rule.
pub open spec fn spec_enc_restitution(v: SerializableRestitution) -> Seq<u8> {
    spec_enc_u32(v.coefficient) + spec_enc_combine_rule(v.combine_rule)
}

/// Parses a restitution description.
pub open spec fn spec_parse_restitution(s: Seq<u8>, i: int) -> Option<(
    SerializableRestitution,
    int,
)> {
    match spec_parse_u32(s, i) {
        Some((c, i1)) => match spec_parse_combine_rule(s, i1) {
            Some((rule, i2)) => Some(
                (SerializableRestitution { coefficient: c, combine_rule: rule }, i2),
            ),
            None => None,
        },
        None => None,
    }
}

/// Parsing inverts encoding for `SerializableRestitution`.
pub proof fn lemma_parse_enc_restitution(v: SerializableRestitution, s: Seq<u8>, i: int)
    requires
        0 <= i,
        i + spec_enc_restitution(v).len() <= s.len(),
        s.subrange(i, i + spec_enc_restitution(v).len()) == spec_enc_restitution(v),
    ensures
        spec_parse_restitution(s, i) == Some((v, i + spec_enc_restitution(v).len())),
{
    lemma_prim_lens();
    lemma_split_at(s, i, spec_enc_u32(v.coefficient), spec_enc_combine_rule(v.combine_rule));
    lemma_parse_enc_u32(v.coefficient, s, i);
    lemma_parse_enc_combine_rule(v.combine_rule, s, i + 4);
}

/// Appends the encoding of `SerializableRestitution`.
pub fn enc_restitution_into(out: &mut Vec<u8>, v: &SerializableRestitution)
    ensures
        final(out)@ == old(out)@ + spec_enc_restitution(*v),
{
    enc_u32_into(out, v.coefficient);
    enc_combine_rule_into(out, &v.combine_rule);
    assert(out@ =~= old(out)@ + spec_enc_restitution(*v));
}

/// Decodes `SerializableRestitution`.
pub fn dec_restitution(s: &Vec<u8>, pos: usize) -> (r: Option<(SerializableRestitution, usize)>)
    ensures
        match r {
            Some((v, j)) => {
                &&& spec_parse_restitution(s@, pos as int) == Some((v, j as int))
                &&& pos < j <= s@.len()
            },
            None => spec_parse_restitution(s@, pos as int) is None,
        },
{
    match dec_u32(s, pos) {
        Some((c, i1)) => match dec_combine_rule(s, i1) {
            Some((rule, i2)) => Some(
                (SerializableRestitution { coefficient: c, combine_rule: rule }, i2),
            ),
            None => None,
        },
        None => None,
    }
}

// ---------------------------------------------------------------------------
// Timestep mode and configuration
// ---------------------------------------------------------------------------

/// Encoding of a timestep mode: a tag byte then the variant's fields.
pub open spec fn spec_enc_timestep_mode(v: SerializableTimestepMode) -> Seq<u8> {
    match v {
        SerializableTimestepMode::Fixed { dt_us, substeps } => seq![0u8] + spec_enc_u32(dt_us)
            + spec_enc_u32(substeps),
        SerializableTimestepMode::Variable { max_dt_us, time_scale_ppm, substeps } => seq![1u8]
            + spec_enc_u32(max_dt_us) + spec_enc_u32(time_scale_ppm) + spec_enc_u32(substeps),
        SerializableTimestepMode::Interpolated { dt_us, time_scale_ppm, substeps } => seq![2u8]
            + spec_enc_u32(dt_us) + spec_enc_u32(time_scale_ppm) + spec_enc_u32(substeps),
    }
}

/// Parses a timestep mode.
pub open spec fn spec_parse_timestep_mode(s: Seq<u8>, i: int) -> Option<(
    SerializableTimestepMode,
    int,
)> {
    match spec_parse_u8(s, i) {
        Some((t, j)) => {
            if t == 0 {
                match spec_parse_u32(s, j) {
                    Some((dt_us, j1)) => match spec_parse_u32(s, j1) {
                        Some((substeps, j2)) => Some(
                            (SerializableTimestepMode::Fixed { dt_us, substeps }, j2),
                        ),
                        None => None,
                    },
                    None => None,
                }
            } else if t == 1 {
                match spec_parse_u32(s, j) {
                    Some((max_dt_us, j1)) => match spec_parse_u32(s, j1) {
                        Some((time_scale_ppm, j2)) => match spec_parse_u32(s, j2) {
                            Some((substeps, j3)) => Some(
                                (
                                    SerializableTimestepMode::Variable {
                                        max_dt_us,
                                        time_scale_ppm,
                                        substeps,
                                    },
                                    j3,
                                ),
                            ),
                            None => None,
                        },
                        None => None,
                    },
                    None => None,
                }
            } else if t == 2 {
                match spec_parse_u32(s, j) {
                    Some((dt_us, j1)) => match spec_parse_u32(s, j1) {
                        Some((time_scale_ppm, j2)) => match spec_parse_u32(s, j2) {
                            Some((substeps, j3)) => Some(
                                (
                                    SerializableTimestepMode::Interpolated {
                                        dt_us,
                                        time_scale_ppm,
                                        substeps,
                                    },
                                    j3,
                                ),
                            ),
                            None => None,
                        },
                        None => None,
                    },
                    None => None,
                }
            } else {
                None
            }
        },
        None => None,
    }
}

/// Parsing inverts encoding for `SerializableTimestepMode`.
pub proof fn lemma_parse_enc_timestep_mode(v: SerializableTimestepMode, s: Seq<u8>, i: int)
    requires
        0 <= i,
        i + spec_enc_timestep_mode(v).len() <= s.len(),
        s.subrange(i, i + spec_enc_timestep_mode(v).len()) == spec_enc_timestep_mode(v),
    ensures
        spec_parse_timestep_mode(s, i) == Some((v, i + spec_enc_timestep_mode(v).len())),
{
    lemma_prim_lens();
    match v {
        SerializableTimestepMode::Fixed { dt_us, substeps } => {
            lemma_split_at(s, i, seq![0u8] + spec_enc_u32(dt_us), spec_enc_u32(substeps));
            lemma_split_at(s, i, seq![0u8], spec_enc_u32(dt_us));
            lemma_parse_enc_u8(0, s, i);
            lemma_parse_enc_u32(dt_us, s, i + 1);
            lemma_parse_enc_u32(substeps, s, i + 5);
        },
        SerializableTimestepMode::Variable { max_dt_us, time_scale_ppm, substeps } => {
            lemma_split_at(
                s,
                i,
                seq![1u8] + spec_enc_u32(max_dt_us) + spec_enc_u32(time_scale_ppm),
                spec_enc_u32(substeps),
            );
            lemma_split_at(
                s,
                i,
                seq![1u8] + spec_enc_u32(max_dt_us),
                spec_enc_u32(time_scale_ppm),
            );
            lemma_split_at(s, i, seq![1u8], spec_enc_u32(max_dt_us));
            lemma_parse_enc_u8(1, s, i);
            lemma_parse_enc_u32(max_dt_us, s, i + 1);
            lemma_parse_enc_u32(time_scale_ppm, s, i + 5);
            lemma_parse_enc_u32(substeps, s, i + 9);
        },
        SerializableTimestepMode::Interpolated { dt_us, time_scale_ppm, substeps } => {
            lemma_split_at(
                s,
                i,
                seq![2u8] + spec_enc_u32(dt_us) + spec_enc_u32(time_scale_ppm),
                spec_enc_u32(substeps),
            );
            lemma_split_at(s, i, seq![2u8] + spec_enc_u32(dt_us), spec_enc_u32(time_scale_ppm));
            lemma_split_at(s, i, seq![2u8], spec_enc_u32(dt_us));
            lemma_parse_enc_u8(2, s, i);
            lemma_parse_enc_u32(dt_us, s, i + 1);
            lemma_parse_enc_u32(time_scale_ppm, s, i + 5);
            lemma_parse_enc_u32(substeps, s, i + 9);
        },
    }
}

/// Appends the encoding of `SerializableTimestepMode`.
pub fn enc_timestep_mode_into(out: &mut Vec<u8>, v: &SerializableTimestepMode)
    ensures
        final(out)@ == old(out)@ + spec_enc_timestep_mode(*v),
{
    match v {
        SerializableTimestepMode::Fixed { dt_us, substeps } => {
            enc_u8_into(out, 0);
            enc_u32_into(out, *dt_us);
            enc_u32_into(out, *substeps);
        },
        SerializableTimestepMode::Variable { max_dt_us, time_scale_ppm, substeps } => {
            enc_u8_into(out, 1);
            enc_u32_into(out, *max_dt_us);
            enc_u32_into(out, *time_scale_ppm);
            enc_u32_into(out, *substeps);
        },
        SerializableTimestepMode::Interpolated { dt_us, time_scale_ppm, substeps } => {
            enc_u8_into(out, 2);
            enc_u32_into(out, *dt_us);
            enc_u32_into(out, *time_scale_ppm);
            enc_u32_into(out, *substeps);
        },
    }
    assert(out@ =~= old(out)@ + spec_enc_timestep_mode(*v));
}

/// Decodes `SerializableTimestepMode`.
pub fn dec_timestep_mode(s: &Vec<u8>, pos: usize) -> (r: Option<(SerializableTimestepMode, usize)>)
    ensures
        match r {
            Some((v, j)) => {
                &&& spec_parse_timestep_mode(s@, pos as int) == Some((v, j as int))
                &&& pos < j <= s@.len()
            },
            None => spec_parse_timestep_mode(s@, pos as int) is None,
        },
{
    match dec_u8(s, pos) {
        Some((t, j)) => {
            if t == 0 {
                match dec_u32(s, j) {
                    Some((dt_us, j1)) => match dec_u32(s, j1) {
                        Some((substeps, j2)) => Some(
                            (SerializableTimestepMode::Fixed { dt_us, substeps }, j2),
                        ),
                        None => None,
                    },
                    None => None,
                }
            } else if t == 1 {
                match dec_u32(s, j) {
                    Some((max_dt_us, j1)) => match dec_u32(s, j1) {
                        Some((time_scale_ppm, j2)) => match dec_u32(s, j2) {
                            Some((substeps, j3)) => Some(
                                (
                                    SerializableTimestepMode::Variable {
                                        max_dt_us,
                                        time_scale_ppm,
                                        substeps,
                                    },
                                    j3,
                                ),
                            ),
                            None => None,
                        },
                        None => None,
                    },
                    None => None,
                }
            } else if t == 2 {
                match dec_u32(s, j) {
                    Some((dt_us, j1)) => match dec_u32(s, j1) {
                        Some((time_scale_ppm, j2)) => match dec_u32(s, j2) {
                            Some((substeps, j3)) => Some(
                                (
                                    SerializableTimestepMode::Interpolated {
                                        dt_us,
                                        time_scale_ppm,
                                        substeps,
                                    },
                                    j3,
                                ),
                            ),
                            None => None,
                        },
                        None => None,
                    },
                    None => None,
                }
            } else {
                None
            }
        },
        None => None,
    }
}

/// Encoding of the session configuration: its six fields in order.
pub open spec fn spec_enc_config(v: SerializableRapierConfiguration) -> Seq<u8> {
    spec_enc_vect(v.gravity) + spec_enc_bool(v.physics_pipeline_active) + spec_enc_bool(
        v.query_pipeline_active,
    ) + spec_enc_timestep_mode(v.timestep_mode) + spec_enc_u32(v.scaled_shape_subdivision)
        + spec_enc_bool(v.force_update_from_transform_changes)
}

/// Parses the session configuration.
pub open spec fn spec_parse_config(s: Seq<u8>, i: int) -> Option<(
    SerializableRapierConfiguration,
    int,
)> {
    match spec_parse_vect(s, i) {
        Some((gravity, i1)) => match spec_parse_bool(s, i1) {
            Some((ppa, i2)) => match spec_parse_bool(s, i2) {
                Some((qpa, i3)) => match spec_parse_timestep_mode(s, i3) {
                    Some((mode, i4)) => match spec_parse_u32(s, i4) {
                        Some((sss, i5)) => match spec_parse_bool(s, i5) {
                            Some((fu, i6)) => Some(
                                (
                                    SerializableRapierConfiguration {
                                        gravity,
                                        physics_pipeline_active: ppa,
                                        query_pipeline_active: qpa,
                                        timestep_mode: mode,
                                        scaled_shape_subdivision: sss,
                                        force_update_from_transform_changes: fu,
                                    },
                                    i6,
                                ),
                            ),
                            None => None,
                        },
                        None => None,
                    },
                    None => None,
                },
                None => None,
            },
            None => None,
        },
        None => None,
    }
}

/// Parsing inverts encoding for `SerializableRapierConfiguration`.
pub proof fn lemma_parse_enc_config(v: SerializableRapierConfiguration, s: Seq<u8>, i: int)
    requires
        0 <= i,
        i + spec_enc_config(v).len() <= s.len(),
        s.subrange(i, i + spec_enc_config(v).len()) == spec_enc_config(v),
    ensures
        spec_parse_config(s, i) == Some((v, i + spec_enc_config(v).len())),
{
    lemma_prim_lens();
    let a = spec_enc_vect(v.gravity);
    let b = spec_enc_bool(v.physics_pipeline_active);
    let c = spec_enc_bool(v.query_pipeline_active);
    let d = spec_enc_timestep_mode(v.timestep_mode);
    let e = spec_enc_u32(v.scaled_shape_subdivision);
    let f = spec_enc_bool(v.force_update_from_transform_changes);
    lemma_split_at(s, i, a + b + c + d + e, f);
    lemma_split_at(s, i, a + b + c + d, e);
    lemma_split_at(s, i, a + b + c, d);
    lemma_split_at(s, i, a + b, c);
    lemma_split_at(s, i, a, b);
    lemma_parse_enc_vect(v.gravity, s, i);
    lemma_parse_enc_bool(v.physics_pipeline_active, s, i + 12);
    lemma_parse_enc_bool(v.query_pipeline_active, s, i + 13);
    lemma_parse_enc_timestep_mode(v.timestep_mode, s, i + 14);
    lemma_parse_enc_u32(v.scaled_shape_subdivision, s, i + 14 + d.len());
    lemma_parse_enc_bool(v.force_update_from_transform_changes, s, i + 18 + d.len());
}

/// Appends the encoding of `SerializableRapierConfiguration`.
pub fn enc_config_into(out: &mut Vec<u8>, v: &SerializableRapierConfiguration)
    ensures
        final(out)@ == old(out)@ + spec_enc_config(*v),
{
    enc_vect_into(out, &v.gravity);
    enc_bool_into(out, v.physics_pipeline_active);
    enc_bool_into(out, v.query_pipeline_active);
    enc_timestep_mode_into(out, &v.timestep_mode);
    enc_u32_into(out, v.scaled_shape_subdivision);
    enc_bool_into(out, v.force_update_from_transform_changes);
    assert(out@ =~= old(out)@ + spec_enc_config(*v));
}

/// Decodes `SerializableRapierConfiguration`.
pub fn dec_config(s: &Vec<u8>, pos: usize) -> (r: Option<(
    SerializableRapierConfiguration,
    usize,
)>)
    ensures
        match r {
            Some((v, j)) => {
                &&& spec_parse_config(s@, pos as int) == Some((v, j as int))
                &&& pos < j <= s@.len()
            },
            None => spec_parse_config(s@, pos as int) is None,
        },
{
    match dec_vect(s, pos) {
        Some((gravity, i1)) => match dec_bool(s, i1) {
            Some((ppa, i2)) => match dec_bool(s, i2) {
                Some((qpa, i3)) => match dec_timestep_mode(s, i3) {
                    Some((mode, i4)) => match dec_u32(s, i4) {
                        Some((sss, i5)) => match dec_bool(s, i5) {
                            Some((fu, i6)) => Some(
                                (
                                    SerializableRapierConfiguration {
                                        gravity,
                                        physics_pipeline_active: ppa,
                                        query_pipeline_active: qpa,
                                        timestep_mode: mode,
                                        scaled_shape_subdivision: sss,
                                        force_update_from_transform_changes: fu,
                                    },
                                    i6,
                                ),
                            ),
                            None => None,
                        },
                        None => None,
                    },
                    None => None,
                },
                None => None,
            },
            None => None,
        },
        None => None,
    }
}

} // verus!
