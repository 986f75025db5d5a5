//! The wire codec for the message layer: creation records, handles, and the
//! recursive `Request` / `Response` unions, with the round-trip lemmas that
//! make `decode` the exact inverse of `encode`.

use vstd::prelude::*;

use crate::codec::{
    dec_isometry, dec_transform, dec_u32, dec_u64, dec_u8, dec_velocity,
    dec_additional_mass_properties, dec_collider_mass_properties, dec_config, dec_friction,
    dec_restitution, enc_additional_mass_properties_into, enc_collider_mass_properties_into,
    enc_config_into, enc_friction_into, enc_isometry_into, enc_restitution_into,
    enc_transform_into, enc_u32_into, enc_u64_into, enc_u8_into, enc_velocity_into,
    lemma_parse_enc_additional_mass_properties, lemma_parse_enc_collider_mass_properties,
    lemma_parse_enc_config, lemma_parse_enc_friction, lemma_parse_enc_isometry,
    lemma_parse_enc_restitution, lemma_parse_enc_transform, lemma_parse_enc_u32,
    lemma_parse_enc_u64, lemma_parse_enc_u8, lemma_parse_enc_velocity, lemma_prim_lens,
    lemma_split_at, spec_enc_additional_mass_properties, spec_enc_collider_mass_properties,
    spec_enc_config, spec_enc_friction, spec_enc_isometry, spec_enc_restitution,
    spec_enc_transform, spec_enc_u32, spec_enc_u64, spec_enc_u8, spec_enc_velocity,
    spec_parse_additional_mass_properties, spec_parse_collider_mass_properties,
    spec_parse_config, spec_parse_friction, spec_parse_isometry, spec_parse_restitution,
    spec_parse_transform, spec_parse_u32, spec_parse_u64, spec_parse_u8, spec_parse_velocity,
};
use crate::math::Isometry;
use crate::serializable::{
    SerializableAdditionalMassProperties, SerializableColliderMassProperties,
    SerializableFriction, SerializableRestitution, SerializableSensor,
};
use crate::shared::{
    lemma_view_request_seq, lemma_view_response_seq, view_request, view_request_seq,
    view_response, view_response_seq, ColliderHandle, ColliderShape, CreatedBody,
    CreatedCollider, Request, RequestView, Response, ResponseView, RigidBody, RigidBodyHandle,
    SimulatedBody,
};
use crate::ErrorKind;

verus! {

// ---------------------------------------------------------------------------
// Body kind and collider shape
// ---------------------------------------------------------------------------

/// Encoding of a body kind: one tag byte.
pub open spec fn spec_enc_rigid_body(v: RigidBody) -> Seq<u8> {
    match v {
        RigidBody::Dynamic => seq![0u8],
        RigidBody::Fixed => seq![1u8],
        RigidBody::KinematicPositionBased => seq![2u8],
        RigidBody::KinematicVelocityBased => seq![3u8],
    }
}

/// Parses a body kind.
pub open spec fn spec_parse_rigid_body(s: Seq<u8>, i: int) -> Option<(RigidBody, int)> {
    match spec_parse_u8(s, i) {
        Some((t, j)) => {
            if t == 0 {
                Some((RigidBody::Dynamic, j))
            } else if t == 1 {
                Some((RigidBody::Fixed, j))
            } else if t == 2 {
                Some((RigidBody::KinematicPositionBased, j))
            } else if t == 3 {
                Some((RigidBody::KinematicVelocityBased, j))
            } else {
                None
            }
        },
        None => None,
    }
}

/// Parsing inverts encoding for `RigidBody`.
pub proof fn lemma_parse_enc_rigid_body(v: RigidBody, s: Seq<u8>, i: int)
    requires
        0 <= i,
        i + spec_enc_rigid_body(v).len() <= s.len(),
        s.subrange(i, i + spec_enc_rigid_body(v).len()) == spec_enc_rigid_body(v),
    ensures
        spec_parse_rigid_body(s, i) == Some((v, i + spec_enc_rigid_body(v).len())),
{
    assert(s.subrange(i, i + 1)[0] == s[i]);
}

/// Appends the encoding of a `RigidBody`.
pub fn enc_rigid_body_into(out: &mut Vec<u8>, v: &RigidBody)
    ensures
        final(out)@ == old(out)@ + spec_enc_rigid_body(*v),
{
    match v {
        RigidBody::Dynamic => enc_u8_into(out, 0),
        RigidBody::Fixed => enc_u8_into(out, 1),
        RigidBody::KinematicPositionBased => enc_u8_into(out, 2),
        RigidBody::KinematicVelocityBased => enc_u8_into(out, 3),
    }
}

/// Decodes a `RigidBody`.
pub fn dec_rigid_body(s: &Vec<u8>, pos: usize) -> (r: Option<(RigidBody, usize)>)
    ensures
        match r {
            Some((v, j)) => {
                &&& spec_parse_rigid_body(s@, pos as int) == Some((v, j as int))
                &&& pos < j <= s@.len()
            },
            None => spec_parse_rigid_body(s@, pos as int) is None,
        },
{
    match dec_u8(s, pos) {
        Some((t, j)) => {
            if t == 0 {
                Some((RigidBody::Dynamic, j))
            } else if t == 1 {
                Some((RigidBody::Fixed, j))
            } else if t == 2 {
                Some((RigidBody::KinematicPositionBased, j))
            } else if t == 3 {
                Some((RigidBody::KinematicVelocityBased, j))
            } else {
                None
            }
        },
        None => None,
    }
}

/// Encoding of a collider shape: a tag byte then its extents.
pub open spec fn spec_enc_shape(v: ColliderShape) -> Seq<u8> {
    match v {
        ColliderShape::Ball { radius } => seq![0u8] + spec_enc_u32(radius),
        ColliderShape::Cuboid { hx, hy, hz } => seq![1u8] + spec_enc_u32(hx) + spec_enc_u32(hy)
            + spec_enc_u32(hz),
    }
}

/// Parses a collider shape.
pub open spec fn spec_parse_shape(s: Seq<u8>, i: int) -> Option<(ColliderShape, int)> {
    match spec_parse_u8(s, i) {
        Some((t, j)) => {
            if t == 0 {
                match spec_parse_u32(s, j) {
                    Some((radius, k)) => Some((ColliderShape::Ball { radius }, k)),
                    None => None,
                }
            } else if t == 1 {
                match spec_parse_u32(s, j) {
                    Some((hx, j1)) => match spec_parse_u32(s, j1) {
                        Some((hy, j2)) => match spec_parse_u32(s, j2) {
                            Some((hz, j3)) => Some((ColliderShape::Cuboid { hx, hy, hz }, j3)),
                            None => None,
                        },
                        None => None,
                    },
                    None => None,
                }
            } else {
                None
            }
        },
        None => None,
    }
}

/// Parsing inverts encoding for `ColliderShape`.
pub proof fn lemma_parse_enc_shape(v: ColliderShape, s: Seq<u8>, i: int)
    requires
        0 <= i,
        i + spec_enc_shape(v).len() <= s.len(),
        s.subrange(i, i + spec_enc_shape(v).len()) == spec_enc_shape(v),
    ensures
        spec_parse_shape(s, i) == Some((v, i + spec_enc_shape(v).len())),
{
    lemma_prim_lens();
    match v {
        ColliderShape::Ball { radius } => {
            lemma_split_at(s, i, seq![0u8], spec_enc_u32(radius));
            lemma_parse_enc_u8(0, s, i);
            lemma_parse_enc_u32(radius, s, i + 1);
        },
        ColliderShape::Cuboid { hx, hy, hz } => {
            lemma_split_at(s, i, seq![1u8] + spec_enc_u32(hx) + spec_enc_u32(hy), spec_enc_u32(hz));
            lemma_split_at(s, i, seq![1u8] + spec_enc_u32(hx), spec_enc_u32(hy));
            lemma_split_at(s, i, seq![1u8], spec_enc_u32(hx));
            lemma_parse_enc_u8(1, s, i);
            lemma_parse_enc_u32(hx, s, i + 1);
            lemma_parse_enc_u32(hy, s, i + 5);
            lemma_parse_enc_u32(hz, s, i + 9);
        },
    }
}

/// Appends the encoding of a `ColliderShape`.
pub fn enc_shape_into(out: &mut Vec<u8>, v: &ColliderShape)
    ensures
        final(out)@ == old(out)@ + spec_enc_shape(*v),
{
    match v {
        ColliderShape::Ball { radius } => {
            enc_u8_into(out, 0);
            enc_u32_into(out, *radius);
        },
        ColliderShape::Cuboid { hx, hy, hz } => {
            enc_u8_into(out, 1);
            enc_u32_into(out, *hx);
            enc_u32_into(out, *hy);
            enc_u32_into(out, *hz);
        },
    }
    assert(out@ =~= old(out)@ + spec_enc_shape(*v));
}

/// Decodes a `ColliderShape`.
pub fn dec_shape(s: &Vec<u8>, pos: usize) -> (r: Option<(ColliderShape, usize)>)
    ensures
        match r {
            Some((v, j)) => {
                &&& spec_parse_shape(s@, pos as int) == Some((v, j as int))
                &&& pos < j <= s@.len()
            },
            None => spec_parse_shape(s@, pos as int) is None,
        },
{
    match dec_u8(s, pos) {
        Some((t, j)) => {
            if t == 0 {
                match dec_u32(s, j) {
                    Some((radius, k)) => Some((ColliderShape::Ball { radius }, k)),
                    None => None,
                }
            } else if t == 1 {
                match dec_u32(s, j) {
                    Some((hx, j1)) => match dec_u32(s, j1) {
                        Some((hy, j2)) => match dec_u32(s, j2) {
                            Some((hz, j3)) => Some((ColliderShape::Cuboid { hx, hy, hz }, j3)),
                            None => None,
                        },
                        None => None,
                    },
                    None => None,
                }
            } else {
                None
            }
        },
        None => None,
    }
}

// ---------------------------------------------------------------------------
// Handles
// ---------------------------------------------------------------------------

/// Encoding of a body handle: index then generation.
pub open spec fn spec_enc_body_handle(v: RigidBodyHandle) -> Seq<u8> {
    spec_enc_u32(v.index) + spec_enc_u32(v.generation)
}

/// Parses a body handle.
pub open spec fn spec_parse_body_handle(s: Seq<u8>, i: int) -> Option<(RigidBodyHandle, int)> {
    match spec_parse_u32(s, i) {
        Some((index, i1)) => match spec_parse_u32(s, i1) {
            Some((generation, i2)) => Some((RigidBodyHandle { index, generation }, i2)),
            None => None,
        },
        None => None,
    }
}

/// Parsing inverts encoding for `RigidBodyHandle`.
pub proof fn lemma_parse_enc_body_handle(v: RigidBodyHandle, s: Seq<u8>, i: int)
    requires
        0 <= i,
        i + spec_enc_body_handle(v).len() <= s.len(),
        s.subrange(i, i + spec_enc_body_handle(v).len()) == spec_enc_body_handle(v),
    ensures
        spec_parse_body_handle(s, i) == Some((v, i + spec_enc_body_handle(v).len())),
{
    lemma_prim_lens();
    lemma_split_at(s, i, spec_enc_u32(v.index), spec_enc_u32(v.generation));
    lemma_parse_enc_u32(v.index, s, i);
    lemma_parse_enc_u32(v.generation, s, i + 4);
}

/// Appends the encoding of a `RigidBodyHandle`.
pub fn enc_body_handle_into(out: &mut Vec<u8>, v: &RigidBodyHandle)
    ensures
        final(out)@ == old(out)@ + spec_enc_body_handle(*v),
{
    enc_u32_into(out, v.index);
    enc_u32_into(out, v.generation);
    assert(out@ =~= old(out)@ + spec_enc_body_handle(*v));
}

/// Decodes a `RigidBodyHandle`.
pub fn dec_body_handle(s: &Vec<u8>, pos: usize) -> (r: Option<(RigidBodyHandle, usize)>)
    ensures
        match r {
            Some((v, j)) => {
                &&& spec_parse_body_handle(s@, pos as int) == Some((v, j as int))
                &&& pos < j <= s@.len()
            },
            None => spec_parse_body_handle(s@, pos as int) is None,
        },
{
    match dec_u32(s, pos) {
        Some((index, i1)) => match dec_u32(s, i1) {
            Some((generation, i2)) => Some((RigidBodyHandle { index, generation }, i2)),
            None => None,
        },
        None => None,
    }
}

/// Encoding of a collider handle: index then generation.
pub open spec fn spec_enc_collider_handle(v: ColliderHandle) -> Seq<u8> {
    spec_enc_u32(v.index) + spec_enc_u32(v.generation)
}

/// Parses a collider handle.
pub open spec fn spec_parse_collider_handle(s: Seq<u8>, i: int) -> Option<(ColliderHandle, int)> {
    match spec_parse_u32(s, i) {
        Some((index, i1)) => match spec_parse_u32(s, i1) {
            Some((generation, i2)) => Some((ColliderHandle { index, generation }, i2)),
            None => None,
        },
        None => None,
    }
}

/// Parsing inverts encoding for `ColliderHandle`.
pub proof fn lemma_parse_enc_collider_handle(v: ColliderHandle, s: Seq<u8>, i: int)
    requires
        0 <= i,
        i + spec_enc_collider_handle(v).len() <= s.len(),
        s.subrange(i, i + spec_enc_collider_handle(v).len()) == spec_enc_collider_handle(v),
    ensures
        spec_parse_collider_handle(s, i) == Some((v, i + spec_enc_collider_handle(v).len())),
{
    lemma_prim_lens();
    lemma_split_at(s, i, spec_enc_u32(v.index), spec_enc_u32(v.generation));
    lemma_parse_enc_u32(v.index, s, i);
    lemma_parse_enc_u32(v.generation, s, i + 4);
}

/// Appends the encoding of a `ColliderHandle`.
pub fn enc_collider_handle_into(out: &mut Vec<u8>, v: &ColliderHandle)
    ensures
        final(out)@ == old(out)@ + spec_enc_collider_handle(*v),
{
    enc_u32_into(out, v.index);
    enc_u32_into(out, v.generation);
    assert(out@ =~= old(out)@ + spec_enc_collider_handle(*v));
}

/// Decodes a `ColliderHandle`.
pub fn dec_collider_handle(s: &Vec<u8>, pos: usize) -> (r: Option<(ColliderHandle, usize)>)
    ensures
        match r {
            Some((v, j)) => {
                &&& spec_parse_collider_handle(s@, pos as int) == Some((v, j as int))
                &&& pos < j <= s@.len()
            },
            None => spec_parse_collider_handle(s@, pos as int) is None,
        },
{
    match dec_u32(s, pos) {
        Some((index, i1)) => match dec_u32(s, i1) {
            Some((generation, i2)) => Some((ColliderHandle { index, generation }, i2)),
            None => None,
        },
        None => None,
    }
}

// ---------------------------------------------------------------------------
// Options
// ---------------------------------------------------------------------------

/// Encoding of an optional placement: a presence byte, then the placement.
pub open spec fn spec_enc_opt_isometry(v: Option<Isometry>) -> Seq<u8> {
    match v {
        Option::None => seq![0u8],
        Option::Some(x) => seq![1u8] + spec_enc_isometry(x),
    }
}

/// Parses an optional placement.
pub open spec fn spec_parse_opt_isometry(s: Seq<u8>, i: int) -> Option<(Option<Isometry>, int)> {
    match spec_parse_u8(s, i) {
        Some((t, j)) => {
            if t == 0 {
                Some((Option::None, j))
            } else if t == 1 {
                match spec_parse_isometry(s, j) {
                    Some((x, k)) => Some((Option::Some(x), k)),
                    None => None,
                }
            } else {
                None
            }
        },
        None => None,
    }
}

/// Parsing inverts encoding for `Option<Isometry>`.
pub proof fn lemma_parse_enc_opt_isometry(v: Option<Isometry>, s: Seq<u8>, i: int)
    requires
        0 <= i,
        i + spec_enc_opt_isometry(v).len() <= s.len(),
        s.subrange(i, i + spec_enc_opt_isometry(v).len()) == spec_enc_opt_isometry(v),
    ensures
        spec_parse_opt_isometry(s, i) == Some((v, i + spec_enc_opt_isometry(v).len())),
{
    match v {
        Option::None => {
            lemma_parse_enc_u8(0, s, i);
        },
        Option::Some(x) => {
            lemma_split_at(s, i, seq![1u8], spec_enc_isometry(x));
            lemma_parse_enc_u8(1, s, i);
            lemma_parse_enc_isometry(x, s, i + 1);
        },
    }
}

/// Appends the encoding of an `Option<Isometry>`.
pub fn enc_opt_isometry_into(out: &mut Vec<u8>, v: &Option<Isometry>)
    ensures
        final(out)@ == old(out)@ + spec_enc_opt_isometry(*v),
{
    match v {
        Option::None => enc_u8_into(out, 0),
        Option::Some(x) => {
            enc_u8_into(out, 1);
            enc_isometry_into(out, x);
        },
    }
    assert(out@ =~= old(out)@ + spec_enc_opt_isometry(*v));
}

/// Decodes an `Option<Isometry>`.
pub fn dec_opt_isometry(s: &Vec<u8>, pos: usize) -> (r: Option<(Option<Isometry>, usize)>)
    ensures
        match r {
            Some((v, j)) => {
                &&& spec_parse_opt_isometry(s@, pos as int) == Some((v, j as int))
                &&& pos < j <= s@.len()
            },
            None => spec_parse_opt_isometry(s@, pos as int) is None,
        },
{
    match dec_u8(s, pos) {
        Some((t, j)) => {
            if t == 0 {
                Some((Option::None, j))
            } else if t == 1 {
                match dec_isometry(s, j) {
                    Some((x, k)) => Some((Option::Some(x), k)),
                    None => None,
                }
            } else {
                None
            }
        },
        None => None,
    }
}

/// Encoding of an optional sensor marker: a presence byte only.
pub open spec fn spec_enc_opt_sensor(v: Option<SerializableSensor>) -> Seq<u8> {
    match v {
        Option::None => seq![0u8],
        Option::Some(_) => seq![1u8],
    }
}

/// Parses an optional sensor marker.
pub open spec fn spec_parse_opt_sensor(s: Seq<u8>, i: int) -> Option<(
    Option<SerializableSensor>,
    int,
)> {
    match spec_parse_u8(s, i) {
        Some((t, j)) => {
            if t == 0 {
                Some((Option::None, j))
            } else if t == 1 {
                Some((Option::Some(SerializableSensor), j))
            } else {
                None
            }
        },
        None => None,
    }
}

/// Parsing inverts encoding for `Option<SerializableSensor>`.
pub proof fn lemma_parse_enc_opt_sensor(v: Option<SerializableSensor>, s: Seq<u8>, i: int)
    requires
        0 <= i,
        i + spec_enc_opt_sensor(v).len() <= s.len(),
        s.subrange(i, i + spec_enc_opt_sensor(v).len()) == spec_enc_opt_sensor(v),
    ensures
        spec_parse_opt_sensor(s, i) == Some((v, i + spec_enc_opt_sensor(v).len())),
{
    match v {
        Option::None => {
            lemma_parse_enc_u8(0, s, i);
        },
        Option::Some(x) => {
            lemma_parse_enc_u8(1, s, i);
        },
    }
}

/// Appends the encoding of an `Option<SerializableSensor>`.
pub fn enc_opt_sensor_into(out: &mut Vec<u8>, v: &Option<SerializableSensor>)
    ensures
        final(out)@ == old(out)@ + spec_enc_opt_sensor(*v),
{
    match v {
        Option::None => enc_u8_into(out, 0),
        Option::Some(_) => enc_u8_into(out, 1),
    }
    assert(out@ =~= old(out)@ + spec_enc_opt_sensor(*v));
}

/// Decodes an `Option<SerializableSensor>`.
pub fn dec_opt_sensor(s: &Vec<u8>, pos: usize) -> (r: Option<(Option<SerializableSensor>, usize)>)
    ensures
        match r {
            Some((v, j)) => {
                &&& spec_parse_opt_sensor(s@, pos as int) == Some((v, j as int))
                &&& pos < j <= s@.len()
            },
            None => spec_parse_opt_sensor(s@, pos as int) is None,
        },
{
    match dec_u8(s, pos) {
        Some((t, j)) => {
            if t == 0 {
                Some((Option::None, j))
            } else if t == 1 {
                Some((Option::Some(SerializableSensor), j))
            } else {
                None
            }
        },
        None => None,
    }
}

/// Encoding of optional additional mass properties.
pub open spec fn spec_enc_opt_additional_mass(
    v: Option<SerializableAdditionalMassProperties>,
) -> Seq<u8> {
    match v {
        Option::None => seq![0u8],
        Option::Some(x) => seq![1u8] + spec_enc_additional_mass_properties(x),
    }
}

/// Parses optional additional mass properties.
pub open spec fn spec_parse_opt_additional_mass(s: Seq<u8>, i: int) -> Option<(
    Option<SerializableAdditionalMassProperties>,
    int,
)> {
    match spec_parse_u8(s, i) {
        Some((t, j)) => {
            if t == 0 {
                Some((Option::None, j))
            } else if t == 1 {
                match spec_parse_additional_mass_properties(s, j) {
                    Some((x, k)) => Some((Option::Some(x), k)),
                    None => None,
                }
            } else {
                None
            }
        },
        None => None,
    }
}

/// Parsing inverts encoding for `Option<SerializableAdditionalMassProperties>`.
pub proof fn lemma_parse_enc_opt_additional_mass(
    v: Option<SerializableAdditionalMassProperties>,
    s: Seq<u8>,
    i: int,
)
    requires
        0 <= i,
        i + spec_enc_opt_additional_mass(v).len() <= s.len(),
        s.subrange(i, i + spec_enc_opt_additional_mass(v).len()) == spec_enc_opt_additional_mass(
            v,
        ),
    ensures
        spec_parse_opt_additional_mass(s, i) == Some(
            (v, i + spec_enc_opt_additional_mass(v).len()),
        ),
{
    match v {
        Option::None => {
            lemma_parse_enc_u8(0, s, i);
        },
        Option::Some(x) => {
            lemma_split_at(s, i, seq![1u8], spec_enc_additional_mass_properties(x));
            lemma_parse_enc_u8(1, s, i);
            lemma_parse_enc_additional_mass_properties(x, s, i + 1);
        },
    }
}

/// Appends the encoding of an `Option<SerializableAdditionalMassProperties>`.
pub fn enc_opt_additional_mass_into(
    out: &mut Vec<u8>,
    v: &Option<SerializableAdditionalMassProperties>,
)
    ensures
        final(out)@ == old(out)@ + spec_enc_opt_additional_mass(*v),
{
    match v {
        Option::None => enc_u8_into(out, 0),
        Option::Some(x) => {
            enc_u8_into(out, 1);
            enc_additional_mass_properties_into(out, x);
        },
    }
    assert(out@ =~= old(out)@ + spec_enc_opt_additional_mass(*v));
}

/// Decodes an `Option<SerializableAdditionalMassProperties>`.
pub fn dec_opt_additional_mass(s: &Vec<u8>, pos: usize) -> (r: Option<(
    Option<SerializableAdditionalMassProperties>,
    usize,
)>)
    ensures
        match r {
            Some((v, j)) => {
                &&& spec_parse_opt_additional_mass(s@, pos as int) == Some((v, j as int))
                &&& pos < j <= s@.len()
            },
            None => spec_parse_opt_additional_mass(s@, pos as int) is None,
        },
{
    match dec_u8(s, pos) {
        Some((t, j)) => {
            if t == 0 {
                Some((Option::None, j))
            } else if t == 1 {
                match dec_additional_mass_properties(s, j) {
                    Some((x, k)) => Some((Option::Some(x), k)),
                    None => None,
                }
            } else {
                None
            }
        },
        None => None,
    }
}

/// Encoding of optional collider mass properties.
pub open spec fn spec_enc_opt_collider_mass(
    v: Option<SerializableColliderMassProperties>,
) -> Seq<u8> {
    match v {
        Option::None => seq![0u8],
        Option::Some(x) => seq![1u8] + spec_enc_collider_mass_properties(x),
    }
}

/// Parses optional collider mass properties.
pub open spec fn spec_parse_opt_collider_mass(s: Seq<u8>, i: int) -> Option<(
    Option<SerializableColliderMassProperties>,
    int,
)> {
    match spec_parse_u8(s, i) {
        Some((t, j)) => {
            if t == 0 {
                Some((Option::None, j))
            } else if t == 1 {
                match spec_parse_collider_mass_properties(s, j) {
                    Some((x, k)) => Some((Option::Some(x), k)),
                    None => None,
                }
            } else {
                None
            }
        },
        None => None,
    }
}

/// Parsing inverts encoding for `Option<SerializableColliderMassProperties>`.
pub proof fn lemma_parse_enc_opt_collider_mass(
    v: Option<SerializableColliderMassProperties>,
    s: Seq<u8>,
    i: int,
)
    requires
        0 <= i,
        i + spec_enc_opt_collider_mass(v).len() <= s.len(),
        s.subrange(i, i + spec_enc_opt_collider_mass(v).len()) == spec_enc_opt_collider_mass(v),
    ensures
        spec_parse_opt_collider_mass(s, i) == Some((v, i + spec_enc_opt_collider_mass(v).len())),
{
    match v {
        Option::None => {
            lemma_parse_enc_u8(0, s, i);
        },
        Option::Some(x) => {
            lemma_split_at(s, i, seq![1u8], spec_enc_collider_mass_properties(x));
            lemma_parse_enc_u8(1, s, i);
            lemma_parse_enc_collider_mass_properties(x, s, i + 1);
        },
    }
}

/// Appends the encoding of an `Option<SerializableColliderMassProperties>`.
pub fn enc_opt_collider_mass_into(
    out: &mut Vec<u8>,
    v: &Option<SerializableColliderMassProperties>,
)
    ensures
        final(out)@ == old(out)@ + spec_enc_opt_collider_mass(*v),
{
    match v {
        Option::None => enc_u8_into(out, 0),
        Option::Some(x) => {
            enc_u8_into(out, 1);
            enc_collider_mass_properties_into(out, x);
        },
    }
    assert(out@ =~= old(out)@ + spec_enc_opt_collider_mass(*v));
}

/// Decodes an `Option<SerializableColliderMassProperties>`.
pub fn dec_opt_collider_mass(s: &Vec<u8>, pos: usize) -> (r: Option<(
    Option<SerializableColliderMassProperties>,
    usize,
)>)
    ensures
        match r {
            Some((v, j)) => {
                &&& spec_parse_opt_collider_mass(s@, pos as int) == Some((v, j as int))
                &&& pos < j <= s@.len()
            },
            None => spec_parse_opt_collider_mass(s@, pos as int) is None,
        },
{
    match dec_u8(s, pos) {
        Some((t, j)) => {
            if t == 0 {
                Some((Option::None, j))
            } else if t == 1 {
                match dec_collider_mass_properties(s, j) {
                    Some((x, k)) => Some((Option::Some(x), k)),
                    None => None,
                }
            } else {
                None
            }
        },
        None => None,
    }
}

/// Encoding of an optional friction description.
pub open spec fn spec_enc_opt_friction(v: Option<SerializableFriction>) -> Seq<u8> {
    match v {
        Option::None => seq![0u8],
        Option::Some(x) => seq![1u8] + spec_enc_friction(x),
    }
}

/// Parses an optional friction description.
pub open spec fn spec_parse_opt_friction(s: Seq<u8>, i: int) -> Option<(
    Option<SerializableFriction>,
    int,
)> {
    match spec_parse_u8(s, i) {
        Some((t, j)) => {
            if t == 0 {
                Some((Option::None, j))
            } else if t == 1 {
                match spec_parse_friction(s, j) {
                    Some((x, k)) => Some((Option::Some(x), k)),
                    None => None,
                }
            } else {
                None
            }
        },
        None => None,
    }
}

/// Parsing inverts encoding for `Option<SerializableFriction>`.
pub proof fn lemma_parse_enc_opt_friction(v: Option<SerializableFriction>, s: Seq<u8>, i: int)
    requires
        0 <= i,
        i + spec_enc_opt_friction(v).len() <= s.len(),
        s.subrange(i, i + spec_enc_opt_friction(v).len()) == spec_enc_opt_friction(v),
    ensures
        spec_parse_opt_friction(s, i) == Some((v, i + spec_enc_opt_friction(v).len())),
{
    match v {
        Option::None => {
            lemma_parse_enc_u8(0, s, i);
        },
        Option::Some(x) => {
            lemma_split_at(s, i, seq![1u8], spec_enc_friction(x));
            lemma_parse_enc_u8(1, s, i);
            lemma_parse_enc_friction(x, s, i + 1);
        },
    }
}

/// Appends the encoding of an `Option<SerializableFriction>`.
pub fn enc_opt_friction_into(out: &mut Vec<u8>, v: &Option<SerializableFriction>)
    ensures
        final(out)@ == old(out)@ + spec_enc_opt_friction(*v),
{
    match v {
        Option::None => enc_u8_into(out, 0),
        Option::Some(x) => {
            enc_u8_into(out, 1);
            enc_friction_into(out, x);
        },
    }
    assert(out@ =~= old(out)@ + spec_enc_opt_friction(*v));
}

/// Decodes an `Option<SerializableFriction>`.
pub fn dec_opt_friction(s: &Vec<u8>, pos: usize) -> (r: Option<(
    Option<SerializableFriction>,
    usize,
)>)
    ensures
        match r {
            Some((v, j)) => {
                &&& spec_parse_opt_friction(s@, pos as int) == Some((v, j as int))
                &&& pos < j <= s@.len()
            },
            None => spec_parse_opt_friction(s@, pos as int) is None,
        },
{
    match dec_u8(s, pos) {
        Some((t, j)) => {
            if t == 0 {
                Some((Option::None, j))
            } else if t == 1 {
                match dec_friction(s, j) {
                    Some((x, k)) => Some((Option::Some(x), k)),
                    None => None,
                }
            } else {
                None
            }
        },
        None => None,
    }
}

/// Encoding of an optional restitution description.
pub open spec fn spec_enc_opt_restitution(v: Option<SerializableRestitution>) -> Seq<u8> {
    match v {
        Option::None => seq![0u8],
        Option::Some(x) => seq![1u8] + spec_enc_restitution(x),
    }
}

/// Parses an optional restitution description.
pub open spec fn spec_parse_opt_restitution(s: Seq<u8>, i: int) -> Option<(
    Option<SerializableRestitution>,
    int,
)> {
    match spec_parse_u8(s, i) {
        Some((t, j)) => {
            if t == 0 {
                Some((Option::None, j))
            } else if t == 1 {
                match spec_parse_restitution(s, j) {
                    Some((x, k)) => Some((Option::Some(x), k)),
                    None => None,
                }
            } else {
                None
            }
        },
        None => None,
    }
}

/// Parsing inverts encoding for `Option<SerializableRestitution>`.
pub proof fn lemma_parse_enc_opt_restitution(
    v: Option<SerializableRestitution>,
    s: Seq<u8>,
    i: int,
)
    requires
        0 <= i,
        i + spec_enc_opt_restitution(v).len() <= s.len(),
        s.subrange(i, i + spec_enc_opt_restitution(v).len()) == spec_enc_opt_restitution(v),
    ensures
        spec_parse_opt_restitution(s, i) == Some((v, i + spec_enc_opt_restitution(v).len())),
{
    match v {
        Option::None => {
            lemma_parse_enc_u8(0, s, i);
        },
        Option::Some(x) => {
            lemma_split_at(s, i, seq![1u8], spec_enc_restitution(x));
            lemma_parse_enc_u8(1, s, i);
            lemma_parse_enc_restitution(x, s, i + 1);
        },
    }
}

/// Appends the encoding of an `Option<SerializableRestitution>`.
pub fn enc_opt_restitution_into(out: &mut Vec<u8>, v: &Option<SerializableRestitution>)
    ensures
        final(out)@ == old(out)@ + spec_enc_opt_restitution(*v),
{
    match v {
        Option::None => enc_u8_into(out, 0),
        Option::Some(x) => {
            enc_u8_into(out, 1);
            enc_restitution_into(out, x);
        },
    }
    assert(out@ =~= old(out)@ + spec_enc_opt_restitution(*v));
}

/// Decodes an `Option<SerializableRestitution>`.
pub fn dec_opt_restitution(s: &Vec<u8>, pos: usize) -> (r: Option<(
    Option<SerializableRestitution>,
    usize,
)>)
    ensures
        match r {
            Some((v, j)) => {
                &&& spec_parse_opt_restitution(s@, pos as int) == Some((v, j as int))
                &&& pos < j <= s@.len()
            },
            None => spec_parse_opt_restitution(s@, pos as int) is None,
        },
{
    match dec_u8(s, pos) {
        Some((t, j)) => {
            if t == 0 {
                Some((Option::None, j))
            } else if t == 1 {
                match dec_restitution(s, j) {
                    Some((x, k)) => Some((Option::Some(x), k)),
                    None => None,
                }
            } else {
                None
            }
        },
        None => None,
    }
}

// ---------------------------------------------------------------------------
// Creation records and per-body results
// ---------------------------------------------------------------------------

/// Encoding of a `CreatedBody`: id, kind, optional placement, optional mass.
pub open spec fn spec_enc_created_body(v: CreatedBody) -> Seq<u8> {
    spec_enc_u64(v.id) + spec_enc_rigid_body(v.body) + spec_enc_opt_isometry(v.transform)
        + spec_enc_opt_additional_mass(v.additional_mass_properties)
}

/// Parses a `CreatedBody`.
pub open spec fn spec_parse_created_body(s: Seq<u8>, i: int) -> Option<(CreatedBody, int)> {
    match spec_parse_u64(s, i) {
        Some((id, i1)) => match spec_parse_rigid_body(s, i1) {
            Some((body, i2)) => match spec_parse_opt_isometry(s, i2) {
                Some((transform, i3)) => match spec_parse_opt_additional_mass(s, i3) {
                    Some((amp, i4)) => Some(
                        (
                            CreatedBody {
                                id,
                                body,
                                transform,
                                additional_mass_properties: amp,
                            },
                            i4,
                        ),
                    ),
                    None => None,
                },
                None => None,
            },
            None => None,
        },
        None => None,
    }
}

/// Parsing inverts encoding for `CreatedBody`.
pub proof fn lemma_parse_enc_created_body(v: CreatedBody, s: Seq<u8>, i: int)
    requires
        0 <= i,
        i + spec_enc_created_body(v).len() <= s.len(),
        s.subrange(i, i + spec_enc_created_body(v).len()) == spec_enc_created_body(v),
    ensures
        spec_parse_created_body(s, i) == Some((v, i + spec_enc_created_body(v).len())),
{
    lemma_prim_lens();
    let a = spec_enc_u64(v.id);
    let b = spec_enc_rigid_body(v.body);
    let c = spec_enc_opt_isometry(v.transform);
    let d = spec_enc_opt_additional_mass(v.additional_mass_properties);
    lemma_split_at(s, i, a + b + c, d);
    lemma_split_at(s, i, a + b, c);
    lemma_split_at(s, i, a, b);
    lemma_parse_enc_u64(v.id, s, i);
    lemma_parse_enc_rigid_body(v.body, s, i + 8);
    lemma_parse_enc_opt_isometry(v.transform, s, i + 9);
    lemma_parse_enc_opt_additional_mass(v.additional_mass_properties, s, i + 9 + c.len());
}

/// Appends the encoding of a `CreatedBody`.
pub fn enc_created_body_into(out: &mut Vec<u8>, v: &CreatedBody)
    ensures
        final(out)@ == old(out)@ + spec_enc_created_body(*v),
{
    enc_u64_into(out, v.id);
    enc_rigid_body_into(out, &v.body);
    enc_opt_isometry_into(out, &v.transform);
    enc_opt_additional_mass_into(out, &v.additional_mass_properties);
    assert(out@ =~= old(out)@ + spec_enc_created_body(*v));
}

/// Decodes a `CreatedBody`.
pub fn dec_created_body(s: &Vec<u8>, pos: usize) -> (r: Option<(CreatedBody, usize)>)
    ensures
        match r {
            Some((v, j)) => {
                &&& spec_parse_created_body(s@, pos as int) == Some((v, j as int))
                &&& pos < j <= s@.len()
            },
            None => spec_parse_created_body(s@, pos as int) is None,
        },
{
    match dec_u64(s, pos) {
        Some((id, i1)) => match dec_rigid_body(s, i1) {
            Some((body, i2)) => match dec_opt_isometry(s, i2) {
                Some((transform, i3)) => match dec_opt_additional_mass(s, i3) {
                    Some((amp, i4)) => Some(
                        (
                            CreatedBody {
                                id,
                                body,
                                transform,
                                additional_mass_properties: amp,
                            },
                            i4,
                        ),
                    ),
                    None => None,
                },
                None => None,
            },
            None => None,
        },
        None => None,
    }
}

/// Encoding of a `CreatedCollider`: id, shape, and the optional attributes.
pub open spec fn spec_enc_created_collider(v: CreatedCollider) -> Seq<u8> {
    spec_enc_u64(v.id) + spec_enc_shape(v.shape) + spec_enc_opt_isometry(v.transform)
        + spec_enc_opt_sensor(v.sensor) + spec_enc_opt_collider_mass(v.mass_properties)
        + spec_enc_opt_friction(v.friction) + spec_enc_opt_restitution(v.restitution)
}

/// Parses a `CreatedCollider`.
pub open spec fn spec_parse_created_collider(s: Seq<u8>, i: int) -> Option<(
    CreatedCollider,
    int,
)> {
    match spec_parse_u64(s, i) {
        Some((id, i1)) => match spec_parse_shape(s, i1) {
            Some((shape, i2)) => match spec_parse_opt_isometry(s, i2) {
                Some((transform, i3)) => match spec_parse_opt_sensor(s, i3) {
                    Some((sensor, i4)) => match spec_parse_opt_collider_mass(s, i4) {
                        Some((mp, i5)) => match spec_parse_opt_friction(s, i5) {
                            Some((fr, i6)) => match spec_parse_opt_restitution(s, i6) {
                                Some((re, i7)) => Some(
                                    (
                                        CreatedCollider {
                                            id,
                                            shape,
                                            transform,
                                            sensor,
                                            mass_properties: mp,
                                            friction: fr,
                                            restitution: re,
                                        },
                                        i7,
                                    ),
                                ),
                                None => None,
                            },
                            None => None,
                        },
                        None => None,
                    },
                    None => None,
                },
                None => None,
            },
            None => None,
        },
        None => None,
    }
}

/// Parsing inverts encoding for `CreatedCollider`.
pub proof fn lemma_parse_enc_created_collider(v: CreatedCollider, s: Seq<u8>, i: int)
    requires
        0 <= i,
        i + spec_enc_created_collider(v).len() <= s.len(),
        s.subrange(i, i + spec_enc_created_collider(v).len()) == spec_enc_created_collider(v),
    ensures
        spec_parse_created_collider(s, i) == Some((v, i + spec_enc_created_collider(v).len())),
{
    lemma_prim_lens();
    let a = spec_enc_u64(v.id);
    let b = spec_enc_shape(v.shape);
    let c = spec_enc_opt_isometry(v.transform);
    let d = spec_enc_opt_sensor(v.sensor);
    let e = spec_enc_opt_collider_mass(v.mass_properties);
    let f = spec_enc_opt_friction(v.friction);
    let g = spec_enc_opt_restitution(v.restitution);
    lemma_split_at(s, i, a + b + c + d + e + f, g);
    lemma_split_at(s, i, a + b + c + d + e, f);
    lemma_split_at(s, i, a + b + c + d, e);
    lemma_split_at(s, i, a + b + c, d);
    lemma_split_at(s, i, a + b, c);
    lemma_split_at(s, i, a, b);
    lemma_parse_enc_u64(v.id, s, i);
    lemma_parse_enc_shape(v.shape, s, i + 8);
    lemma_parse_enc_opt_isometry(v.transform, s, i + 8 + b.len());
    lemma_parse_enc_opt_sensor(v.sensor, s, i + 8 + b.len() + c.len());
    lemma_parse_enc_opt_collider_mass(v.mass_properties, s, i + 8 + b.len() + c.len() + d.len());
    lemma_parse_enc_opt_friction(
        v.friction,
        s,
        i + 8 + b.len() + c.len() + d.len() + e.len(),
    );
    lemma_parse_enc_opt_restitution(
        v.restitution,
        s,
        i + 8 + b.len() + c.len() + d.len() + e.len() + f.len(),
    );
}

/// Appends the encoding of a `CreatedCollider`.
pub fn enc_created_collider_into(out: &mut Vec<u8>, v: &CreatedCollider)
    ensures
        final(out)@ == old(out)@ + spec_enc_created_collider(*v),
{
    enc_u64_into(out, v.id);
    enc_shape_into(out, &v.shape);
    enc_opt_isometry_into(out, &v.transform);
    enc_opt_sensor_into(out, &v.sensor);
    enc_opt_collider_mass_into(out, &v.mass_properties);
    enc_opt_friction_into(out, &v.friction);
    enc_opt_restitution_into(out, &v.restitution);
    assert(out@ =~= old(out)@ + spec_enc_created_collider(*v));
}

/// Decodes a `CreatedCollider`.
pub fn dec_created_collider(s: &Vec<u8>, pos: usize) -> (r: Option<(CreatedCollider, usize)>)
    ensures
        match r {
            Some((v, j)) => {
                &&& spec_parse_created_collider(s@, pos as int) == Some((v, j as int))
                &&& pos < j <= s@.len()
            },
            None => spec_parse_created_collider(s@, pos as int) is None,
        },
{
    match dec_u64(s, pos) {
        Some((id, i1)) => match dec_shape(s, i1) {
            Some((shape, i2)) => match dec_opt_isometry(s, i2) {
                Some((transform, i3)) => match dec_opt_sensor(s, i3) {
                    Some((sensor, i4)) => match dec_opt_collider_mass(s, i4) {
                        Some((mp, i5)) => match dec_opt_friction(s, i5) {
                            Some((fr, i6)) => match dec_opt_restitution(s, i6) {
                                Some((re, i7)) => Some(
                                    (
                                        CreatedCollider {
                                            id,
                                            shape,
                                            transform,
                                            sensor,
                                            mass_properties: mp,
                                            friction: fr,
                                            restitution: re,
                                        },
                                        i7,
                                    ),
                                ),
                                None => None,
                            },
                            None => None,
                        },
                        None => None,
                    },
                    None => None,
                },
                None => None,
            },
            None => None,
        },
        None => None,
    }
}

/// Encoding of a `SimulatedBody`: transform then velocity.
pub open spec fn spec_enc_simulated_body(v: SimulatedBody) -> Seq<u8> {
    spec_enc_transform(v.transform) + spec_enc_velocity(v.velocity)
}

/// Parses a `SimulatedBody`.
pub open spec fn spec_parse_simulated_body(s: Seq<u8>, i: int) -> Option<(SimulatedBody, int)> {
    match spec_parse_transform(s, i) {
        Some((t, i1)) => match spec_parse_velocity(s, i1) {
            Some((vel, i2)) => Some((SimulatedBody { transform: t, velocity: vel }, i2)),
            None => None,
        },
        None => None,
    }
}

/// Parsing inverts encoding for `SimulatedBody`.
pub proof fn lemma_parse_enc_simulated_body(v: SimulatedBody, s: Seq<u8>, i: int)
    requires
        0 <= i,
        i + spec_enc_simulated_body(v).len() <= s.len(),
        s.subrange(i, i + spec_enc_simulated_body(v).len()) == spec_enc_simulated_body(v),
    ensures
        spec_parse_simulated_body(s, i) == Some((v, i + spec_enc_simulated_body(v).len())),
{
    lemma_split_at(s, i, spec_enc_transform(v.transform), spec_enc_velocity(v.velocity));
    lemma_parse_enc_transform(v.transform, s, i);
    lemma_parse_enc_velocity(v.velocity, s, i + 40);
}

/// Appends the encoding of a `SimulatedBody`.
pub fn enc_simulated_body_into(out: &mut Vec<u8>, v: &SimulatedBody)
    ensures
        final(out)@ == old(out)@ + spec_enc_simulated_body(*v),
{
    enc_transform_into(out, &v.transform);
    enc_velocity_into(out, &v.velocity);
    assert(out@ =~= old(out)@ + spec_enc_simulated_body(*v));
}

/// Decodes a `SimulatedBody`.
pub fn dec_simulated_body(s: &Vec<u8>, pos: usize) -> (r: Option<(SimulatedBody, usize)>)
    ensures
        match r {
            Some((v, j)) => {
                &&& spec_parse_simulated_body(s@, pos as int) == Some((v, j as int))
                &&& pos < j <= s@.len()
            },
            None => spec_parse_simulated_body(s@, pos as int) is None,
        },
{
    match dec_transform(s, pos) {
        Some((t, i1)) => match dec_velocity(s, i1) {
            Some((vel, i2)) => Some((SimulatedBody { transform: t, velocity: vel }, i2)),
            None => None,
        },
        None => None,
    }
}

/// Encoding of an `(entity id, body handle)` pair.
pub open spec fn spec_enc_id_body_handle(v: (u64, RigidBodyHandle)) -> Seq<u8> {
    spec_enc_u64(v.0) + spec_enc_body_handle(v.1)
}

/// Parses an `(entity id, body handle)` pair.
pub open spec fn spec_parse_id_body_handle(s: Seq<u8>, i: int) -> Option<(
    (u64, RigidBodyHandle),
    int,
)> {
    match spec_parse_u64(s, i) {
        Some((id, i1)) => match spec_parse_body_handle(s, i1) {
            Some((h, i2)) => Some(((id, h), i2)),
            None => None,
        },
        None => None,
    }
}

/// Parsing inverts encoding for `(u64, RigidBodyHandle)`.
pub proof fn lemma_parse_enc_id_body_handle(v: (u64, RigidBodyHandle), s: Seq<u8>, i: int)
    requires
        0 <= i,
        i + spec_enc_id_body_handle(v).len() <= s.len(),
        s.subrange(i, i + spec_enc_id_body_handle(v).len()) == spec_enc_id_body_handle(v),
    ensures
        spec_parse_id_body_handle(s, i) == Some((v, i + spec_enc_id_body_handle(v).len())),
{
    lemma_prim_lens();
    lemma_split_at(s, i, spec_enc_u64(v.0), spec_enc_body_handle(v.1));
    lemma_parse_enc_u64(v.0, s, i);
    lemma_parse_enc_body_handle(v.1, s, i + 8);
}

/// Appends the encoding of an `(entity id, body handle)` pair.
pub fn enc_id_body_handle_into(out: &mut Vec<u8>, v: &(u64, RigidBodyHandle))
    ensures
        final(out)@ == old(out)@ + spec_enc_id_body_handle(*v),
{
    enc_u64_into(out, v.0);
    enc_body_handle_into(out, &v.1);
    assert(out@ =~= old(out)@ + spec_enc_id_body_handle(*v));
}

/// Decodes an `(entity id, body handle)` pair.
pub fn dec_id_body_handle(s: &Vec<u8>, pos: usize) -> (r: Option<((u64, RigidBodyHandle), usize)>)
    ensures
        match r {
            Some((v, j)) => {
                &&& spec_parse_id_body_handle(s@, pos as int) == Some((v, j as int))
                &&& pos < j <= s@.len()
            },
            None => spec_parse_id_body_handle(s@, pos as int) is None,
        },
{
    match dec_u64(s, pos) {
        Some((id, i1)) => match dec_body_handle(s, i1) {
            Some((h, i2)) => Some(((id, h), i2)),
            None => None,
        },
        None => None,
    }
}

/// Encoding of an `(entity id, collider handle)` pair.
pub open spec fn spec_enc_id_collider_handle(v: (u64, ColliderHandle)) -> Seq<u8> {
    spec_enc_u64(v.0) + spec_enc_collider_handle(v.1)
}

/// Parses an `(entity id, collider handle)` pair.
pub open spec fn spec_parse_id_collider_handle(s: Seq<u8>, i: int) -> Option<(
    (u64, ColliderHandle),
    int,
)> {
    match spec_parse_u64(s, i) {
        Some((id, i1)) => match spec_parse_collider_handle(s, i1) {
            Some((h, i2)) => Some(((id, h), i2)),
            None => None,
        },
        None => None,
    }
}

/// Parsing inverts encoding for `(u64, ColliderHandle)`.
pub proof fn lemma_parse_enc_id_collider_handle(v: (u64, ColliderHandle), s: Seq<u8>, i: int)
    requires
        0 <= i,
        i + spec_enc_id_collider_handle(v).len() <= s.len(),
        s.subrange(i, i + spec_enc_id_collider_handle(v).len()) == spec_enc_id_collider_handle(v),
    ensures
        spec_parse_id_collider_handle(s, i) == Some(
            (v, i + spec_enc_id_collider_handle(v).len()),
        ),
{
    lemma_prim_lens();
    lemma_split_at(s, i, spec_enc_u64(v.0), spec_enc_collider_handle(v.1));
    lemma_parse_enc_u64(v.0, s, i);
    lemma_parse_enc_collider_handle(v.1, s, i + 8);
}

/// Appends the encoding of an `(entity id, collider handle)` pair.
pub fn enc_id_collider_handle_into(out: &mut Vec<u8>, v: &(u64, ColliderHandle))
    ensures
        final(out)@ == old(out)@ + spec_enc_id_collider_handle(*v),
{
    enc_u64_into(out, v.0);
    enc_collider_handle_into(out, &v.1);
    assert(out@ =~= old(out)@ + spec_enc_id_collider_handle(*v));
}

/// Decodes an `(entity id, collider handle)` pair.
pub fn dec_id_collider_handle(s: &Vec<u8>, pos: usize) -> (r: Option<(
    (u64, ColliderHandle),
    usize,
)>)
    ensures
        match r {
            Some((v, j)) => {
                &&& spec_parse_id_collider_handle(s@, pos as int) == Some((v, j as int))
                &&& pos < j <= s@.len()
            },
            None => spec_parse_id_collider_handle(s@, pos as int) is None,
        },
{
    match dec_u64(s, pos) {
        Some((id, i1)) => match dec_collider_handle(s, i1) {
            Some((h, i2)) => Some(((id, h), i2)),
            None => None,
        },
        None => None,
    }
}

/// Encoding of a `(body handle, simulated body)` result entry.
pub open spec fn spec_enc_sim_entry(v: (RigidBodyHandle, SimulatedBody)) -> Seq<u8> {
    spec_enc_body_handle(v.0) + spec_enc_simulated_body(v.1)
}

/// Parses a `(body handle, simulated body)` result entry.
pub open spec fn spec_parse_sim_entry(s: Seq<u8>, i: int) -> Option<(
    (RigidBodyHandle, SimulatedBody),
    int,
)> {
    match spec_parse_body_handle(s, i) {
        Some((h, i1)) => match spec_parse_simulated_body(s, i1) {
            Some((b, i2)) => Some(((h, b), i2)),
            None => None,
        },
        None => None,
    }
}

/// Parsing inverts encoding for `(RigidBodyHandle, SimulatedBody)`.
pub proof fn lemma_parse_enc_sim_entry(v: (RigidBodyHandle, SimulatedBody), s: Seq<u8>, i: int)
    requires
        0 <= i,
        i + spec_enc_sim_entry(v).len() <= s.len(),
        s.subrange(i, i + spec_enc_sim_entry(v).len()) == spec_enc_sim_entry(v),
    ensures
        spec_parse_sim_entry(s, i) == Some((v, i + spec_enc_sim_entry(v).len())),
{
    lemma_prim_lens();
    lemma_split_at(s, i, spec_enc_body_handle(v.0), spec_enc_simulated_body(v.1));
    lemma_parse_enc_body_handle(v.0, s, i);
    lemma_parse_enc_simulated_body(v.1, s, i + 8);
}

/// Appends the encoding of a `(body handle, simulated body)` entry.
pub fn enc_sim_entry_into(out: &mut Vec<u8>, v: &(RigidBodyHandle, SimulatedBody))
    ensures
        final(out)@ == old(out)@ + spec_enc_sim_entry(*v),
{
    enc_body_handle_into(out, &v.0);
    enc_simulated_body_into(out, &v.1);
    assert(out@ =~= old(out)@ + spec_enc_sim_entry(*v));
}

/// Decodes a `(body handle, simulated body)` entry.
pub fn dec_sim_entry(s: &Vec<u8>, pos: usize) -> (r: Option<(
    (RigidBodyHandle, SimulatedBody),
    usize,
)>)
    ensures
        match r {
            Some((v, j)) => {
                &&& spec_parse_sim_entry(s@, pos as int) == Some((v, j as int))
                &&& pos < j <= s@.len()
            },
            None => spec_parse_sim_entry(s@, pos as int) is None,
        },
{
    match dec_body_handle(s, pos) {
        Some((h, i1)) => match dec_simulated_body(s, i1) {
            Some((b, i2)) => Some(((h, b), i2)),
            None => None,
        },
        None => None,
    }
}

// ---------------------------------------------------------------------------
// Element sequences
// ---------------------------------------------------------------------------

/// Encoding of a sequence of `CreatedBody`, head first.
pub open spec fn spec_enc_created_body_seq(v: Seq<CreatedBody>) -> Seq<u8>
    decreases v.len(),
{
    if v.len() == 0 {
        Seq::empty()
    } else {
        spec_enc_created_body(v[0]) + spec_enc_created_body_seq(v.drop_first())
    }
}

/// Parses `n` consecutive `CreatedBody` records.
pub open spec fn spec_parse_created_body_seq(s: Seq<u8>, i: int, n: nat) -> Option<(
    Seq<CreatedBody>,
    int,
)>
    decreases n,
{
    if n == 0 {
        Some((Seq::empty(), i))
    } else {
        match spec_parse_created_body(s, i) {
            Some((v, j)) => match spec_parse_created_body_seq(s, j, (n - 1) as nat) {
                Some((rest, k)) => Some((seq![v] + rest, k)),
                None => None,
            },
            None => None,
        }
    }
}

/// Parsing inverts encoding for a sequence of `CreatedBody`.
pub proof fn lemma_parse_enc_created_body_seq(v: Seq<CreatedBody>, s: Seq<u8>, i: int)
    requires
        0 <= i,
        i + spec_enc_created_body_seq(v).len() <= s.len(),
        s.subrange(i, i + spec_enc_created_body_seq(v).len()) == spec_enc_created_body_seq(v),
    ensures
        spec_parse_created_body_seq(s, i, v.len()) == Some(
            (v, i + spec_enc_created_body_seq(v).len()),
        ),
    decreases v.len(),
{
    if v.len() == 0 {
        assert(v =~= Seq::<CreatedBody>::empty());
    } else {
        let a = spec_enc_created_body(v[0]);
        let b = spec_enc_created_body_seq(v.drop_first());
        lemma_split_at(s, i, a, b);
        lemma_parse_enc_created_body(v[0], s, i);
        lemma_parse_enc_created_body_seq(v.drop_first(), s, i + a.len());
        assert(seq![v[0]] + v.drop_first() =~= v);
    }
}

/// Appends the encoding of the bodies from index `from` on.
pub fn enc_created_body_seq_into(out: &mut Vec<u8>, v: &Vec<CreatedBody>, from: usize)
    requires
        from <= v@.len(),
    ensures
        final(out)@ == old(out)@ + spec_enc_created_body_seq(v@.skip(from as int)),
    decreases v@.len() - from,
{
    if from < v.len() {
        enc_created_body_into(out, &v[from]);
        enc_created_body_seq_into(out, v, from + 1);
        proof {
            let sk = v@.skip(from as int);
            assert(sk[0] == v@[from as int]);
            assert(sk.drop_first() =~= v@.skip(from as int + 1));
            assert(out@ =~= old(out)@ + spec_enc_created_body_seq(sk));
        }
    } else {
        proof {
            assert(v@.skip(from as int) =~= Seq::<CreatedBody>::empty());
            assert(out@ =~= old(out)@ + spec_enc_created_body_seq(v@.skip(from as int)));
        }
    }
}

/// Decodes `n` consecutive `CreatedBody` records.
pub fn dec_created_body_seq(s: &Vec<u8>, pos: usize, n: u64) -> (r: Option<(
    Vec<CreatedBody>,
    usize,
)>)
    requires
        pos <= s@.len(),
    ensures
        match r {
            Some((v, j)) => {
                &&& spec_parse_created_body_seq(s@, pos as int, n as nat) == Some(
                    (v@, j as int),
                )
                &&& pos <= j <= s@.len()
            },
            None => spec_parse_created_body_seq(s@, pos as int, n as nat) is None,
        },
    decreases n,
{
    if n == 0 {
        let v: Vec<CreatedBody> = Vec::new();
        proof {
            assert(v@ =~= Seq::<CreatedBody>::empty());
        }
        Some((v, pos))
    } else {
        match dec_created_body(s, pos) {
            Some((b, j)) => match dec_created_body_seq(s, j, n - 1) {
                Some((rest, k)) => {
                    let ghost r0 = rest@;
                    let mut rest = rest;
                    rest.insert(0, b);
                    proof {
                        assert(rest@ =~= seq![b] + r0);
                    }
                    Some((rest, k))
                },
                None => None,
            },
            None => None,
        }
    }
}

/// Encoding of a sequence of `CreatedCollider`, head first.
pub open spec fn spec_enc_created_collider_seq(v: Seq<CreatedCollider>) -> Seq<u8>
    decreases v.len(),
{
    if v.len() == 0 {
        Seq::empty()
    } else {
        spec_enc_created_collider(v[0]) + spec_enc_created_collider_seq(v.drop_first())
    }
}

/// Parses `n` consecutive `CreatedCollider` records.
pub open spec fn spec_parse_created_collider_seq(s: Seq<u8>, i: int, n: nat) -> Option<(
    Seq<CreatedCollider>,
    int,
)>
    decreases n,
{
    if n == 0 {
        Some((Seq::empty(), i))
    } else {
        match spec_parse_created_collider(s, i) {
            Some((v, j)) => match spec_parse_created_collider_seq(s, j, (n - 1) as nat) {
                Some((rest, k)) => Some((seq![v] + rest, k)),
                None => None,
            },
            None => None,
        }
    }
}

/// Parsing inverts encoding for a sequence of `CreatedCollider`.
pub proof fn lemma_parse_enc_created_collider_seq(v: Seq<CreatedCollider>, s: Seq<u8>, i: int)
    requires
        0 <= i,
        i + spec_enc_created_collider_seq(v).len() <= s.len(),
        s.subrange(i, i + spec_enc_created_collider_seq(v).len()) == spec_enc_created_collider_seq(
            v,
        ),
    ensures
        spec_parse_created_collider_seq(s, i, v.len()) == Some(
            (v, i + spec_enc_created_collider_seq(v).len()),
        ),
    decreases v.len(),
{
    if v.len() == 0 {
        assert(v =~= Seq::<CreatedCollider>::empty());
    } else {
        let a = spec_enc_created_collider(v[0]);
        let b = spec_enc_created_collider_seq(v.drop_first());
        lemma_split_at(s, i, a, b);
        lemma_parse_enc_created_collider(v[0], s, i);
        lemma_parse_enc_created_collider_seq(v.drop_first(), s, i + a.len());
        assert(seq![v[0]] + v.drop_first() =~= v);
    }
}

/// Appends the encoding of the colliders from index `from` on.
pub fn enc_created_collider_seq_into(out: &mut Vec<u8>, v: &Vec<CreatedCollider>, from: usize)
    requires
        from <= v@.len(),
    ensures
        final(out)@ == old(out)@ + spec_enc_created_collider_seq(v@.skip(from as int)),
    decreases v@.len() - from,
{
    if from < v.len() {
        enc_created_collider_into(out, &v[from]);
        enc_created_collider_seq_into(out, v, from + 1);
        proof {
            let sk = v@.skip(from as int);
            assert(sk[0] == v@[from as int]);
            assert(sk.drop_first() =~= v@.skip(from as int + 1));
            assert(out@ =~= old(out)@ + spec_enc_created_collider_seq(sk));
        }
    } else {
        proof {
            assert(v@.skip(from as int) =~= Seq::<CreatedCollider>::empty());
            assert(out@ =~= old(out)@ + spec_enc_created_collider_seq(v@.skip(from as int)));
        }
    }
}

/// Decodes `n` consecutive `CreatedCollider` records.
pub fn dec_created_collider_seq(s: &Vec<u8>, pos: usize, n: u64) -> (r: Option<(
    Vec<CreatedCollider>,
    usize,
)>)
    requires
        pos <= s@.len(),
    ensures
        match r {
            Some((v, j)) => {
                &&& spec_parse_created_collider_seq(s@, pos as int, n as nat) == Some(
                    (v@, j as int),
                )
                &&& pos <= j <= s@.len()
            },
            None => spec_parse_created_collider_seq(s@, pos as int, n as nat) is None,
        },
    decreases n,
{
    if n == 0 {
        let v: Vec<CreatedCollider> = Vec::new();
        proof {
            assert(v@ =~= Seq::<CreatedCollider>::empty());
        }
        Some((v, pos))
    } else {
        match dec_created_collider(s, pos) {
            Some((b, j)) => match dec_created_collider_seq(s, j, n - 1) {
                Some((rest, k)) => {
                    let ghost r0 = rest@;
                    let mut rest = rest;
                    rest.insert(0, b);
                    proof {
                        assert(rest@ =~= seq![b] + r0);
                    }
                    Some((rest, k))
                },
                None => None,
            },
            None => None,
        }
    }
}

// ---------------------------------------------------------------------------
// Requests
// ---------------------------------------------------------------------------

/// Whether a request value can be carried on the wire: every list it holds
/// fits the 64-bit count prefix.
pub open spec fn spec_wf_request(rv: RequestView) -> bool
    decreases rv,
{
    match rv {
        RequestView::BulkRequest(subs) => subs.len() <= u64::MAX && spec_wf_request_seq(subs),
        RequestView::UpdateConfig(_) => true,
        RequestView::CreateBodies(v) => v.len() <= u64::MAX,
        RequestView::CreateColliders(v) => v.len() <= u64::MAX,
        RequestView::SimulateStep(_) => true,
    }
}

/// Whether every request in a sequence is well-formed.
pub open spec fn spec_wf_request_seq(subs: Seq<RequestView>) -> bool
    decreases subs,
{
    if subs.len() == 0 {
        true
    } else {
        spec_wf_request(subs[0]) && spec_wf_request_seq(subs.drop_first())
    }
}

/// Encoding of a request: a tag byte, then the variant's payload; lists
/// carry a 64-bit count before their elements.
pub open spec fn spec_enc_request(rv: RequestView) -> Seq<u8>
    decreases rv,
{
    match rv {
        RequestView::BulkRequest(subs) => seq![0u8] + spec_enc_u64(subs.len() as u64)
            + spec_enc_request_seq(subs),
        RequestView::UpdateConfig(c) => seq![1u8] + spec_enc_config(c),
        RequestView::CreateBodies(v) => seq![2u8] + spec_enc_u64(v.len() as u64)
            + spec_enc_created_body_seq(v),
        RequestView::CreateColliders(v) => seq![3u8] + spec_enc_u64(v.len() as u64)
            + spec_enc_created_collider_seq(v),
        RequestView::SimulateStep(dt) => seq![4u8] + spec_enc_u32(dt),
    }
}

/// Encoding of a sequence of requests, head first.
pub open spec fn spec_enc_request_seq(subs: Seq<RequestView>) -> Seq<u8>
    decreases subs,
{
    if subs.len() == 0 {
        Seq::empty()
    } else {
        spec_enc_request(subs[0]) + spec_enc_request_seq(subs.drop_first())
    }
}

/// A request's encoding is never empty: it starts with the tag byte.
pub proof fn lemma_enc_request_len_pos(rv: RequestView)
    ensures
        spec_enc_request(rv).len() >= 1,
{
}

/// Parses a request.
pub open spec fn spec_parse_request(s: Seq<u8>, i: int) -> Option<(RequestView, int)>
    decreases s.len() - i, 0nat, 0nat,
{
    match spec_parse_u8(s, i) {
        Some((t, j)) => {
            if t == 0 {
                match spec_parse_u64(s, j) {
                    Some((n, j1)) => match spec_parse_request_seq(s, j1, n as nat) {
                        Some((subs, k)) => Some((RequestView::BulkRequest(subs), k)),
                        None => None,
                    },
                    None => None,
                }
            } else if t == 1 {
                match spec_parse_config(s, j) {
                    Some((c, k)) => Some((RequestView::UpdateConfig(c), k)),
                    None => None,
                }
            } else if t == 2 {
                match spec_parse_u64(s, j) {
                    Some((n, j1)) => match spec_parse_created_body_seq(s, j1, n as nat) {
                        Some((v, k)) => Some((RequestView::CreateBodies(v), k)),
                        None => None,
                    },
                    None => None,
                }
            } else if t == 3 {
                match spec_parse_u64(s, j) {
                    Some((n, j1)) => match spec_parse_created_collider_seq(s, j1, n as nat) {
                        Some((v, k)) => Some((RequestView::CreateColliders(v), k)),
                        None => None,
                    },
                    None => None,
                }
            } else if t == 4 {
                match spec_parse_u32(s, j) {
                    Some((dt, k)) => Some((RequestView::SimulateStep(dt), k)),
                    None => None,
                }
            } else {
                None
            }
        },
        None => None,
    }
}

/// Parses `n` consecutive requests. A sub-request must consume at least one
/// byte and stay inside the input; anything else is rejected.
pub open spec fn spec_parse_request_seq(s: Seq<u8>, i: int, n: nat) -> Option<(
    Seq<RequestView>,
    int,
)>
    decreases s.len() - i, 1nat, n,
{
    if n == 0 {
        Some((Seq::empty(), i))
    } else {
        match spec_parse_request(s, i) {
            Some((v, j)) => {
                if i < j <= s.len() {
                    match spec_parse_request_seq(s, j, (n - 1) as nat) {
                        Some((rest, k)) => Some((seq![v] + rest, k)),
                        None => None,
                    }
                } else {
                    None
                }
            },
            None => None,
        }
    }
}

/// Parsing inverts encoding for requests.
pub proof fn lemma_parse_enc_request(rv: RequestView, s: Seq<u8>, i: int)
    requires
        spec_wf_request(rv),
        0 <= i,
        i + spec_enc_request(rv).len() <= s.len(),
        s.subrange(i, i + spec_enc_request(rv).len()) == spec_enc_request(rv),
    ensures
        spec_parse_request(s, i) == Some((rv, i + spec_enc_request(rv).len())),
    decreases rv,
{
    lemma_prim_lens();
    match rv {
        RequestView::BulkRequest(subs) => {
            let b = spec_enc_u64(subs.len() as u64);
            let c = spec_enc_request_seq(subs);
            lemma_split_at(s, i, seq![0u8] + b, c);
            lemma_split_at(s, i, seq![0u8], b);
            lemma_parse_enc_u8(0, s, i);
            lemma_parse_enc_u64(subs.len() as u64, s, i + 1);
            lemma_parse_enc_request_seq(subs, s, i + 9);
        },
        RequestView::UpdateConfig(c) => {
            lemma_split_at(s, i, seq![1u8], spec_enc_config(c));
            lemma_parse_enc_u8(1, s, i);
            lemma_parse_enc_config(c, s, i + 1);
        },
        RequestView::CreateBodies(v) => {
            let b = spec_enc_u64(v.len() as u64);
            let c = spec_enc_created_body_seq(v);
            lemma_split_at(s, i, seq![2u8] + b, c);
            lemma_split_at(s, i, seq![2u8], b);
            lemma_parse_enc_u8(2, s, i);
            lemma_parse_enc_u64(v.len() as u64, s, i + 1);
            lemma_parse_enc_created_body_seq(v, s, i + 9);
        },
        RequestView::CreateColliders(v) => {
            let b = spec_enc_u64(v.len() as u64);
            let c = spec_enc_created_collider_seq(v);
            lemma_split_at(s, i, seq![3u8] + b, c);
            lemma_split_at(s, i, seq![3u8], b);
            lemma_parse_enc_u8(3, s, i);
            lemma_parse_enc_u64(v.len() as u64, s, i + 1);
            lemma_parse_enc_created_collider_seq(v, s, i + 9);
        },
        RequestView::SimulateStep(dt) => {
            lemma_split_at(s, i, seq![4u8], spec_enc_u32(dt));
            lemma_parse_enc_u8(4, s, i);
            lemma_parse_enc_u32(dt, s, i + 1);
        },
    }
}

/// Parsing inverts encoding for request sequences.
pub proof fn lemma_parse_enc_request_seq(subs: Seq<RequestView>, s: Seq<u8>, i: int)
    requires
        spec_wf_request_seq(subs),
        0 <= i,
        i + spec_enc_request_seq(subs).len() <= s.len(),
        s.subrange(i, i + spec_enc_request_seq(subs).len()) == spec_enc_request_seq(subs),
    ensures
        spec_parse_request_seq(s, i, subs.len()) == Some(
            (subs, i + spec_enc_request_seq(subs).len()),
        ),
    decreases subs,
{
    if subs.len() == 0 {
        assert(subs =~= Seq::<RequestView>::empty());
    } else {
        let a = spec_enc_request(subs[0]);
        let b = spec_enc_request_seq(subs.drop_first());
        lemma_split_at(s, i, a, b);
        lemma_parse_enc_request(subs[0], s, i);
        lemma_enc_request_len_pos(subs[0]);
        lemma_parse_enc_request_seq(subs.drop_first(), s, i + a.len());
        assert(seq![subs[0]] + subs.drop_first() =~= subs);
    }
}

/// Appends the encoding of a request.
pub fn enc_request_into(out: &mut Vec<u8>, r: &Request)
    ensures
        final(out)@ == old(out)@ + spec_enc_request(r@),
        spec_wf_request(r@),
    decreases r,
{
    match r {
        Request::BulkRequest(v) => {
            proof {
                lemma_view_request_seq(v@);
            }
            enc_u8_into(out, 0);
            enc_u64_into(out, v.len() as u64);
            enc_request_vec_into(out, v, 0);
            proof {
                assert(view_request_seq(v@).skip(0) =~= view_request_seq(v@));
                assert(out@ =~= old(out)@ + spec_enc_request(r@));
            }
        },
        Request::UpdateConfig(c) => {
            enc_u8_into(out, 1);
            enc_config_into(out, c);
            proof {
                assert(out@ =~= old(out)@ + spec_enc_request(r@));
            }
        },
        Request::CreateBodies(v) => {
            enc_u8_into(out, 2);
            enc_u64_into(out, v.len() as u64);
            enc_created_body_seq_into(out, v, 0);
            proof {
                assert(v@.skip(0) =~= v@);
                assert(out@ =~= old(out)@ + spec_enc_request(r@));
            }
        },
        Request::CreateColliders(v) => {
            enc_u8_into(out, 3);
            enc_u64_into(out, v.len() as u64);
            enc_created_collider_seq_into(out, v, 0);
            proof {
                assert(v@.skip(0) =~= v@);
                assert(out@ =~= old(out)@ + spec_enc_request(r@));
            }
        },
        Request::SimulateStep(dt) => {
            enc_u8_into(out, 4);
            enc_u32_into(out, *dt);
            proof {
                assert(out@ =~= old(out)@ + spec_enc_request(r@));
            }
        },
    }
}

/// Appends the encodings of the requests from index `from` on, and shows
/// that they are all well-formed.
pub fn enc_request_vec_into(out: &mut Vec<u8>, v: &Vec<Request>, from: usize)
    requires
        from <= v@.len(),
    ensures
        final(out)@ == old(out)@ + spec_enc_request_seq(view_request_seq(v@).skip(from as int)),
        spec_wf_request_seq(view_request_seq(v@).skip(from as int)),
    decreases v@, v@.len() - from,
{
    proof {
        lemma_view_request_seq(v@);
    }
    if from < v.len() {
        proof {
            assert(decreases_to!(v@ => v@[from as int]));
        }
        enc_request_into(out, &v[from]);
        enc_request_vec_into(out, v, from + 1);
        proof {
            let sk = view_request_seq(v@).skip(from as int);
            assert(sk[0] == view_request(v@[from as int]));
            assert(sk.drop_first() =~= view_request_seq(v@).skip(from as int + 1));
            assert(out@ =~= old(out)@ + spec_enc_request_seq(sk));
        }
    } else {
        proof {
            assert(view_request_seq(v@).skip(from as int) =~= Seq::<RequestView>::empty());
            assert(out@ =~= old(out)@ + spec_enc_request_seq(
                view_request_seq(v@).skip(from as int),
            ));
        }
    }
}

/// Decodes a request.
pub fn dec_request(s: &Vec<u8>, pos: usize) -> (r: Option<(Request, usize)>)
    ensures
        match r {
            Some((v, j)) => {
                &&& spec_parse_request(s@, pos as int) == Some((v@, j as int))
                &&& pos < j <= s@.len()
            },
            None => spec_parse_request(s@, pos as int) is None,
        },
    decreases s@.len() - pos, 0nat, 0nat,
{
    match dec_u8(s, pos) {
        Some((t, j)) => {
            if t == 0 {
                match dec_u64(s, j) {
                    Some((n, j1)) => match dec_request_seq(s, j1, n) {
                        Some((subs, k)) => Some((Request::BulkRequest(subs), k)),
                        None => None,
                    },
                    None => None,
                }
            } else if t == 1 {
                match dec_config(s, j) {
                    Some((c, k)) => Some((Request::UpdateConfig(c), k)),
                    None => None,
                }
            } else if t == 2 {
                match dec_u64(s, j) {
                    Some((n, j1)) => match dec_created_body_seq(s, j1, n) {
                        Some((v, k)) => Some((Request::CreateBodies(v), k)),
                        None => None,
                    },
                    None => None,
                }
            } else if t == 3 {
                match dec_u64(s, j) {
                    Some((n, j1)) => match dec_created_collider_seq(s, j1, n) {
                        Some((v, k)) => Some((Request::CreateColliders(v), k)),
                        None => None,
                    },
                    None => None,
                }
            } else if t == 4 {
                match dec_u32(s, j) {
                    Some((dt, k)) => Some((Request::SimulateStep(dt), k)),
                    None => None,
                }
            } else {
                None
            }
        },
        None => None,
    }
}

/// Decodes `n` consecutive requests.
pub fn dec_request_seq(s: &Vec<u8>, pos: usize, n: u64) -> (r: Option<(Vec<Request>, usize)>)
    requires
        pos <= s@.len(),
    ensures
        match r {
            Some((v, j)) => {
                &&& spec_parse_request_seq(s@, pos as int, n as nat) == Some(
                    (view_request_seq(v@), j as int),
                )
                &&& pos <= j <= s@.len()
            },
            None => spec_parse_request_seq(s@, pos as int, n as nat) is None,
        },
    decreases s@.len() - pos, 1nat, n,
{
    if n == 0 {
        let v: Vec<Request> = Vec::new();
        proof {
            assert(view_request_seq(v@) =~= Seq::<RequestView>::empty());
        }
        Some((v, pos))
    } else {
        match dec_request(s, pos) {
            Some((b, j)) => match dec_request_seq(s, j, n - 1) {
                Some((rest, k)) => {
                    let ghost r0 = rest@;
                    let mut rest = rest;
                    rest.insert(0, b);
                    proof {
                        assert(rest@ =~= seq![b] + r0);
                        assert((seq![b] + r0)[0] == b);
                        assert((seq![b] + r0).drop_first() =~= r0);
                        assert(view_request_seq(rest@) =~= seq![view_request(b)]
                            + view_request_seq(r0));
                    }
                    Some((rest, k))
                },
                None => None,
            },
            None => None,
        }
    }
}

// ---------------------------------------------------------------------------
// Responses
// ---------------------------------------------------------------------------

/// Encoding of a sequence of `(id, body handle)` pairs, head first.
pub open spec fn spec_enc_id_body_handle_seq(v: Seq<(u64, RigidBodyHandle)>) -> Seq<u8>
    decreases v.len(),
{
    if v.len() == 0 {
        Seq::empty()
    } else {
        spec_enc_id_body_handle(v[0]) + spec_enc_id_body_handle_seq(v.drop_first())
    }
}

/// Parses `n` consecutive `(id, body handle)` pairs.
pub open spec fn spec_parse_id_body_handle_seq(s: Seq<u8>, i: int, n: nat) -> Option<(
    Seq<(u64, RigidBodyHandle)>,
    int,
)>
    decreases n,
{
    if n == 0 {
        Some((Seq::empty(), i))
    } else {
        match spec_parse_id_body_handle(s, i) {
            Some((v, j)) => match spec_parse_id_body_handle_seq(s, j, (n - 1) as nat) {
                Some((rest, k)) => Some((seq![v] + rest, k)),
                None => None,
            },
            None => None,
        }
    }
}

/// Parsing inverts encoding for `(id, body handle)` sequences.
pub proof fn lemma_parse_enc_id_body_handle_seq(
    v: Seq<(u64, RigidBodyHandle)>,
    s: Seq<u8>,
    i: int,
)
    requires
        0 <= i,
        i + spec_enc_id_body_handle_seq(v).len() <= s.len(),
        s.subrange(i, i + spec_enc_id_body_handle_seq(v).len()) == spec_enc_id_body_handle_seq(v),
    ensures
        spec_parse_id_body_handle_seq(s, i, v.len()) == Some(
            (v, i + spec_enc_id_body_handle_seq(v).len()),
        ),
    decreases v.len(),
{
    if v.len() == 0 {
        assert(v =~= Seq::<(u64, RigidBodyHandle)>::empty());
    } else {
        let a = spec_enc_id_body_handle(v[0]);
        let b = spec_enc_id_body_handle_seq(v.drop_first());
        lemma_split_at(s, i, a, b);
        lemma_parse_enc_id_body_handle(v[0], s, i);
        lemma_parse_enc_id_body_handle_seq(v.drop_first(), s, i + a.len());
        assert(seq![v[0]] + v.drop_first() =~= v);
    }
}

/// Appends the encoding of the pairs from index `from` on.
pub fn enc_id_body_handle_seq_into(out: &mut Vec<u8>, v: &Vec<(u64, RigidBodyHandle)>, from: usize)
    requires
        from <= v@.len(),
    ensures
        final(out)@ == old(out)@ + spec_enc_id_body_handle_seq(v@.skip(from as int)),
    decreases v@.len() - from,
{
    if from < v.len() {
        enc_id_body_handle_into(out, &v[from]);
        enc_id_body_handle_seq_into(out, v, from + 1);
        proof {
            let sk = v@.skip(from as int);
            assert(sk[0] == v@[from as int]);
            assert(sk.drop_first() =~= v@.skip(from as int + 1));
            assert(out@ =~= old(out)@ + spec_enc_id_body_handle_seq(sk));
        }
    } else {
        proof {
            assert(v@.skip(from as int) =~= Seq::<(u64, RigidBodyHandle)>::empty());
            assert(out@ =~= old(out)@ + spec_enc_id_body_handle_seq(v@.skip(from as int)));
        }
    }
}

/// Decodes `n` consecutive `(id, body handle)` pairs.
pub fn dec_id_body_handle_seq(s: &Vec<u8>, pos: usize, n: u64) -> (r: Option<(
    Vec<(u64, RigidBodyHandle)>,
    usize,
)>)
    requires
        pos <= s@.len(),
    ensures
        match r {
            Some((v, j)) => {
                &&& spec_parse_id_body_handle_seq(s@, pos as int, n as nat) == Some(
                    (v@, j as int),
                )
                &&& pos <= j <= s@.len()
            },
            None => spec_parse_id_body_handle_seq(s@, pos as int, n as nat) is None,
        },
    decreases n,
{
    if n == 0 {
        let v: Vec<(u64, RigidBodyHandle)> = Vec::new();
        proof {
            assert(v@ =~= Seq::<(u64, RigidBodyHandle)>::empty());
        }
        Some((v, pos))
    } else {
        match dec_id_body_handle(s, pos) {
            Some((b, j)) => match dec_id_body_handle_seq(s, j, n - 1) {
                Some((rest, k)) => {
                    let ghost r0 = rest@;
                    let mut rest = rest;
                    rest.insert(0, b);
                    proof {
                        assert(rest@ =~= seq![b] + r0);
                    }
                    Some((rest, k))
                },
                None => None,
            },
            None => None,
        }
    }
}

/// Encoding of a sequence of `(id, collider handle)` pairs, head first.
pub open spec fn spec_enc_id_collider_handle_seq(v: Seq<(u64, ColliderHandle)>) -> Seq<u8>
    decreases v.len(),
{
    if v.len() == 0 {
        Seq::empty()
    } else {
        spec_enc_id_collider_handle(v[0]) + spec_enc_id_collider_handle_seq(v.drop_first())
    }
}

/// Parses `n` consecutive `(id, collider handle)` pairs.
pub open spec fn spec_parse_id_collider_handle_seq(s: Seq<u8>, i: int, n: nat) -> Option<(
    Seq<(u64, ColliderHandle)>,
    int,
)>
    decreases n,
{
    if n == 0 {
        Some((Seq::empty(), i))
    } else {
        match spec_parse_id_collider_handle(s, i) {
            Some((v, j)) => match spec_parse_id_collider_handle_seq(s, j, (n - 1) as nat) {
                Some((rest, k)) => Some((seq![v] + rest, k)),
                None => None,
            },
            None => None,
        }
    }
}

/// Parsing inverts encoding for `(id, collider handle)` sequences.
pub proof fn lemma_parse_enc_id_collider_handle_seq(
    v: Seq<(u64, ColliderHandle)>,
    s: Seq<u8>,
    i: int,
)
    requires
        0 <= i,
        i + spec_enc_id_collider_handle_seq(v).len() <= s.len(),
        s.subrange(i, i + spec_enc_id_collider_handle_seq(v).len())
            == spec_enc_id_collider_handle_seq(v),
    ensures
        spec_parse_id_collider_handle_seq(s, i, v.len()) == Some(
            (v, i + spec_enc_id_collider_handle_seq(v).len()),
        ),
    decreases v.len(),
{
    if v.len() == 0 {
        assert(v =~= Seq::<(u64, ColliderHandle)>::empty());
    } else {
        let a = spec_enc_id_collider_handle(v[0]);
        let b = spec_enc_id_collider_handle_seq(v.drop_first());
        lemma_split_at(s, i, a, b);
        lemma_parse_enc_id_collider_handle(v[0], s, i);
        lemma_parse_enc_id_collider_handle_seq(v.drop_first(), s, i + a.len());
        assert(seq![v[0]] + v.drop_first() =~= v);
    }
}

/// Appends the encoding of the pairs from index `from` on.
pub fn enc_id_collider_handle_seq_into(
    out: &mut Vec<u8>,
    v: &Vec<(u64, ColliderHandle)>,
    from: usize,
)
    requires
        from <= v@.len(),
    ensures
        final(out)@ == old(out)@ + spec_enc_id_collider_handle_seq(v@.skip(from as int)),
    decreases v@.len() - from,
{
    if from < v.len() {
        enc_id_collider_handle_into(out, &v[from]);
        enc_id_collider_handle_seq_into(out, v, from + 1);
        proof {
            let sk = v@.skip(from as int);
            assert(sk[0] == v@[from as int]);
            assert(sk.drop_first() =~= v@.skip(from as int + 1));
            assert(out@ =~= old(out)@ + spec_enc_id_collider_handle_seq(sk));
        }
    } else {
        proof {
            assert(v@.skip(from as int) =~= Seq::<(u64, ColliderHandle)>::empty());
            assert(out@ =~= old(out)@ + spec_enc_id_collider_handle_seq(v@.skip(from as int)));
        }
    }
}

/// Decodes `n` consecutive `(id, collider handle)` pairs.
pub fn dec_id_collider_handle_seq(s: &Vec<u8>, pos: usize, n: u64) -> (r: Option<(
    Vec<(u64, ColliderHandle)>,
    usize,
)>)
    requires
        pos <= s@.len(),
    ensures
        match r {
            Some((v, j)) => {
                &&& spec_parse_id_collider_handle_seq(s@, pos as int, n as nat) == Some(
                    (v@, j as int),
                )
                &&& pos <= j <= s@.len()
            },
            None => spec_parse_id_collider_handle_seq(s@, pos as int, n as nat) is None,
        },
    decreases n,
{
    if n == 0 {
        let v: Vec<(u64, ColliderHandle)> = Vec::new();
        proof {
            assert(v@ =~= Seq::<(u64, ColliderHandle)>::empty());
        }
        Some((v, pos))
    } else {
        match dec_id_collider_handle(s, pos) {
            Some((b, j)) => match dec_id_collider_handle_seq(s, j, n - 1) {
                Some((rest, k)) => {
                    let ghost r0 = rest@;
                    let mut rest = rest;
                    rest.insert(0, b);
                    proof {
                        assert(rest@ =~= seq![b] + r0);
                    }
                    Some((rest, k))
                },
                None => None,
            },
            None => None,
        }
    }
}

/// Encoding of a sequence of simulation-result entries, head first.
pub open spec fn spec_enc_sim_entry_seq(v: Seq<(RigidBodyHandle, SimulatedBody)>) -> Seq<u8>
    decreases v.len(),
{
    if v.len() == 0 {
        Seq::empty()
    } else {
        spec_enc_sim_entry(v[0]) + spec_enc_sim_entry_seq(v.drop_first())
    }
}

/// Parses `n` consecutive simulation-result entries.
pub open spec fn spec_parse_sim_entry_seq(s: Seq<u8>, i: int, n: nat) -> Option<(
    Seq<(RigidBodyHandle, SimulatedBody)>,
    int,
)>
    decreases n,
{
    if n == 0 {
        Some((Seq::empty(), i))
    } else {
        match spec_parse_sim_entry(s, i) {
            Some((v, j)) => match spec_parse_sim_entry_seq(s, j, (n - 1) as nat) {
                Some((rest, k)) => Some((seq![v] + rest, k)),
                None => None,
            },
            None => None,
        }
    }
}

/// Parsing inverts encoding for simulation-result sequences.
pub proof fn lemma_parse_enc_sim_entry_seq(
    v: Seq<(RigidBodyHandle, SimulatedBody)>,
    s: Seq<u8>,
    i: int,
)
    requires
        0 <= i,
        i + spec_enc_sim_entry_seq(v).len() <= s.len(),
        s.subrange(i, i + spec_enc_sim_entry_seq(v).len()) == spec_enc_sim_entry_seq(v),
    ensures
        spec_parse_sim_entry_seq(s, i, v.len()) == Some((v, i + spec_enc_sim_entry_seq(v).len())),
    decreases v.len(),
{
    if v.len() == 0 {
        assert(v =~= Seq::<(RigidBodyHandle, SimulatedBody)>::empty());
    } else {
        let a = spec_enc_sim_entry(v[0]);
        let b = spec_enc_sim_entry_seq(v.drop_first());
        lemma_split_at(s, i, a, b);
        lemma_parse_enc_sim_entry(v[0], s, i);
        lemma_parse_enc_sim_entry_seq(v.drop_first(), s, i + a.len());
        assert(seq![v[0]] + v.drop_first() =~= v);
    }
}

/// Appends the encoding of the entries from index `from` on.
pub fn enc_sim_entry_seq_into(
    out: &mut Vec<u8>,
    v: &Vec<(RigidBodyHandle, SimulatedBody)>,
    from: usize,
)
    requires
        from <= v@.len(),
    ensures
        final(out)@ == old(out)@ + spec_enc_sim_entry_seq(v@.skip(from as int)),
    decreases v@.len() - from,
{
    if from < v.len() {
        enc_sim_entry_into(out, &v[from]);
        enc_sim_entry_seq_into(out, v, from + 1);
        proof {
            let sk = v@.skip(from as int);
            assert(sk[0] == v@[from as int]);
            assert(sk.drop_first() =~= v@.skip(from as int + 1));
            assert(out@ =~= old(out)@ + spec_enc_sim_entry_seq(sk));
        }
    } else {
        proof {
            assert(v@.skip(from as int) =~= Seq::<(RigidBodyHandle, SimulatedBody)>::empty());
            assert(out@ =~= old(out)@ + spec_enc_sim_entry_seq(v@.skip(from as int)));
        }
    }
}

/// Decodes `n` consecutive simulation-result entries.
pub fn dec_sim_entry_seq(s: &Vec<u8>, pos: usize, n: u64) -> (r: Option<(
    Vec<(RigidBodyHandle, SimulatedBody)>,
    usize,
)>)
    requires
        pos <= s@.len(),
    ensures
        match r {
            Some((v, j)) => {
                &&& spec_parse_sim_entry_seq(s@, pos as int, n as nat) == Some((v@, j as int))
                &&& pos <= j <= s@.len()
            },
            None => spec_parse_sim_entry_seq(s@, pos as int, n as nat) is None,
        },
    decreases n,
{
    if n == 0 {
        let v: Vec<(RigidBodyHandle, SimulatedBody)> = Vec::new();
        proof {
            assert(v@ =~= Seq::<(RigidBodyHandle, SimulatedBody)>::empty());
        }
        Some((v, pos))
    } else {
        match dec_sim_entry(s, pos) {
            Some((b, j)) => match dec_sim_entry_seq(s, j, n - 1) {
                Some((rest, k)) => {
                    let ghost r0 = rest@;
                    let mut rest = rest;
                    rest.insert(0, b);
                    proof {
                        assert(rest@ =~= seq![b] + r0);
                    }
                    Some((rest, k))
                },
                None => None,
            },
            None => None,
        }
    }
}

/// Whether a response value can be carried on the wire: every list it holds
/// fits the 64-bit count prefix.
pub open spec fn spec_wf_response(rv: ResponseView) -> bool
    decreases rv,
{
    match rv {
        ResponseView::BulkResponse(subs) => subs.len() <= u64::MAX && spec_wf_response_seq(subs),
        ResponseView::ConfigUpdated => true,
        ResponseView::RigidBodyHandles(v) => v.len() <= u64::MAX,
        ResponseView::ColliderHandles(v) => v.len() <= u64::MAX,
        ResponseView::SimulationResult(v) => v.len() <= u64::MAX,
    }
}

/// Whether every response in a sequence is well-formed.
pub open spec fn spec_wf_response_seq(subs: Seq<ResponseView>) -> bool
    decreases subs,
{
    if subs.len() == 0 {
        true
    } else {
        spec_wf_response(subs[0]) && spec_wf_response_seq(subs.drop_first())
    }
}

/// Encoding of a response: a tag byte, then the variant's payload.
pub open spec fn spec_enc_response(rv: ResponseView) -> Seq<u8>
    decreases rv,
{
    match rv {
        ResponseView::BulkResponse(subs) => seq![0u8] + spec_enc_u64(subs.len() as u64)
            + spec_enc_response_seq(subs),
        ResponseView::ConfigUpdated => seq![1u8],
        ResponseView::RigidBodyHandles(v) => seq![2u8] + spec_enc_u64(v.len() as u64)
            + spec_enc_id_body_handle_seq(v),
        ResponseView::ColliderHandles(v) => seq![3u8] + spec_enc_u64(v.len() as u64)
            + spec_enc_id_collider_handle_seq(v),
        ResponseView::SimulationResult(v) => seq![4u8] + spec_enc_u64(v.len() as u64)
            + spec_enc_sim_entry_seq(v),
    }
}

/// Encoding of a sequence of responses, head first.
pub open spec fn spec_enc_response_seq(subs: Seq<ResponseView>) -> Seq<u8>
    decreases subs,
{
    if subs.len() == 0 {
        Seq::empty()
    } else {
        spec_enc_response(subs[0]) + spec_enc_response_seq(subs.drop_first())
    }
}

/// A response's encoding is never empty: it starts with the tag byte.
pub proof fn lemma_enc_response_len_pos(rv: ResponseView)
    ensures
        spec_enc_response(rv).len() >= 1,
{
}

/// Parses a response.
pub open spec fn spec_parse_response(s: Seq<u8>, i: int) -> Option<(ResponseView, int)>
    decreases s.len() - i, 0nat, 0nat,
{
    match spec_parse_u8(s, i) {
        Some((t, j)) => {
            if t == 0 {
                match spec_parse_u64(s, j) {
                    Some((n, j1)) => match spec_parse_response_seq(s, j1, n as nat) {
                        Some((subs, k)) => Some((ResponseView::BulkResponse(subs), k)),
                        None => None,
                    },
                    None => None,
                }
            } else if t == 1 {
                Some((ResponseView::ConfigUpdated, j))
            } else if t == 2 {
                match spec_parse_u64(s, j) {
                    Some((n, j1)) => match spec_parse_id_body_handle_seq(s, j1, n as nat) {
                        Some((v, k)) => Some((ResponseView::RigidBodyHandles(v), k)),
                        None => None,
                    },
                    None => None,
                }
            } else if t == 3 {
                match spec_parse_u64(s, j) {
                    Some((n, j1)) => match spec_parse_id_collider_handle_seq(s, j1, n as nat) {
                        Some((v, k)) => Some((ResponseView::ColliderHandles(v), k)),
                        None => None,
                    },
                    None => None,
                }
            } else if t == 4 {
                match spec_parse_u64(s, j) {
                    Some((n, j1)) => match spec_parse_sim_entry_seq(s, j1, n as nat) {
                        Some((v, k)) => Some((ResponseView::SimulationResult(v), k)),
                        None => None,
                    },
                    None => None,
                }
            } else {
                None
            }
        },
        None => None,
    }
}

/// Parses `n` consecutive responses. A sub-response must consume at least
/// one byte and stay inside the input; anything else is rejected.
pub open spec fn spec_parse_response_seq(s: Seq<u8>, i: int, n: nat) -> Option<(
    Seq<ResponseView>,
    int,
)>
    decreases s.len() - i, 1nat, n,
{
    if n == 0 {
        Some((Seq::empty(), i))
    } else {
        match spec_parse_response(s, i) {
            Some((v, j)) => {
                if i < j <= s.len() {
                    match spec_parse_response_seq(s, j, (n - 1) as nat) {
                        Some((rest, k)) => Some((seq![v] + rest, k)),
                        None => None,
                    }
                } else {
                    None
                }
            },
            None => None,
        }
    }
}

/// Parsing inverts encoding for responses.
pub proof fn lemma_parse_enc_response(rv: ResponseView, s: Seq<u8>, i: int)
    requires
        spec_wf_response(rv),
        0 <= i,
        i + spec_enc_response(rv).len() <= s.len(),
        s.subrange(i, i + spec_enc_response(rv).len()) == spec_enc_response(rv),
    ensures
        spec_parse_response(s, i) == Some((rv, i + spec_enc_response(rv).len())),
    decreases rv,
{
    lemma_prim_lens();
    match rv {
        ResponseView::BulkResponse(subs) => {
            let b = spec_enc_u64(subs.len() as u64);
            let c = spec_enc_response_seq(subs);
            lemma_split_at(s, i, seq![0u8] + b, c);
            lemma_split_at(s, i, seq![0u8], b);
            lemma_parse_enc_u8(0, s, i);
            lemma_parse_enc_u64(subs.len() as u64, s, i + 1);
            lemma_parse_enc_response_seq(subs, s, i + 9);
        },
        ResponseView::ConfigUpdated => {
            lemma_parse_enc_u8(1, s, i);
        },
        ResponseView::RigidBodyHandles(v) => {
            let b = spec_enc_u64(v.len() as u64);
            let c = spec_enc_id_body_handle_seq(v);
            lemma_split_at(s, i, seq![2u8] + b, c);
            lemma_split_at(s, i, seq![2u8], b);
            lemma_parse_enc_u8(2, s, i);
            lemma_parse_enc_u64(v.len() as u64, s, i + 1);
            lemma_parse_enc_id_body_handle_seq(v, s, i + 9);
        },
        ResponseView::ColliderHandles(v) => {
            let b = spec_enc_u64(v.len() as u64);
            let c = spec_enc_id_collider_handle_seq(v);
            lemma_split_at(s, i, seq![3u8] + b, c);
            lemma_split_at(s, i, seq![3u8], b);
            lemma_parse_enc_u8(3, s, i);
            lemma_parse_enc_u64(v.len() as u64, s, i + 1);
            lemma_parse_enc_id_collider_handle_seq(v, s, i + 9);
        },
        ResponseView::SimulationResult(v) => {
            let b = spec_enc_u64(v.len() as u64);
            let c = spec_enc_sim_entry_seq(v);
            lemma_split_at(s, i, seq![4u8] + b, c);
            lemma_split_at(s, i, seq![4u8], b);
            lemma_parse_enc_u8(4, s, i);
            lemma_parse_enc_u64(v.len() as u64, s, i + 1);
            lemma_parse_enc_sim_entry_seq(v, s, i + 9);
        },
    }
}

/// Parsing inverts encoding for response sequences.
pub proof fn lemma_parse_enc_response_seq(subs: Seq<ResponseView>, s: Seq<u8>, i: int)
    requires
        spec_wf_response_seq(subs),
        0 <= i,
        i + spec_enc_response_seq(subs).len() <= s.len(),
        s.subrange(i, i + spec_enc_response_seq(subs).len()) == spec_enc_response_seq(subs),
    ensures
        spec_parse_response_seq(s, i, subs.len()) == Some(
            (subs, i + spec_enc_response_seq(subs).len()),
        ),
    decreases subs,
{
    if subs.len() == 0 {
        assert(subs =~= Seq::<ResponseView>::empty());
    } else {
        let a = spec_enc_response(subs[0]);
        let b = spec_enc_response_seq(subs.drop_first());
        lemma_split_at(s, i, a, b);
        lemma_parse_enc_response(subs[0], s, i);
        lemma_enc_response_len_pos(subs[0]);
        lemma_parse_enc_response_seq(subs.drop_first(), s, i + a.len());
        assert(seq![subs[0]] + subs.drop_first() =~= subs);
    }
}

/// Appends the encoding of a response.
pub fn enc_response_into(out: &mut Vec<u8>, r: &Response)
    ensures
        final(out)@ == old(out)@ + spec_enc_response(r@),
        spec_wf_response(r@),
    decreases r,
{
    match r {
        Response::BulkResponse(v) => {
            proof {
                lemma_view_response_seq(v@);
            }
            enc_u8_into(out, 0);
            enc_u64_into(out, v.len() as u64);
            enc_response_vec_into(out, v, 0);
            proof {
                assert(view_response_seq(v@).skip(0) =~= view_response_seq(v@));
                assert(out@ =~= old(out)@ + spec_enc_response(r@));
            }
        },
        Response::ConfigUpdated => {
            enc_u8_into(out, 1);
            proof {
                assert(out@ =~= old(out)@ + spec_enc_response(r@));
            }
        },
        Response::RigidBodyHandles(v) => {
            enc_u8_into(out, 2);
            enc_u64_into(out, v.len() as u64);
            enc_id_body_handle_seq_into(out, v, 0);
            proof {
                assert(v@.skip(0) =~= v@);
                assert(out@ =~= old(out)@ + spec_enc_response(r@));
            }
        },
        Response::ColliderHandles(v) => {
            enc_u8_into(out, 3);
            enc_u64_into(out, v.len() as u64);
            enc_id_collider_handle_seq_into(out, v, 0);
            proof {
                assert(v@.skip(0) =~= v@);
                assert(out@ =~= old(out)@ + spec_enc_response(r@));
            }
        },
        Response::SimulationResult(v) => {
            enc_u8_into(out, 4);
            enc_u64_into(out, v.len() as u64);
            enc_sim_entry_seq_into(out, v, 0);
            proof {
                assert(v@.skip(0) =~= v@);
                assert(out@ =~= old(out)@ + spec_enc_response(r@));
            }
        },
    }
}

/// Appends the encodings of the responses from index `from` on, and shows
/// that they are all well-formed.
pub fn enc_response_vec_into(out: &mut Vec<u8>, v: &Vec<Response>, from: usize)
    requires
        from <= v@.len(),
    ensures
        final(out)@ == old(out)@ + spec_enc_response_seq(view_response_seq(v@).skip(from as int)),
        spec_wf_response_seq(view_response_seq(v@).skip(from as int)),
    decreases v@, v@.len() - from,
{
    proof {
        lemma_view_response_seq(v@);
    }
    if from < v.len() {
        proof {
            assert(decreases_to!(v@ => v@[from as int]));
        }
        enc_response_into(out, &v[from]);
        enc_response_vec_into(out, v, from + 1);
        proof {
            let sk = view_response_seq(v@).skip(from as int);
            assert(sk[0] == view_response(v@[from as int]));
            assert(sk.drop_first() =~= view_response_seq(v@).skip(from as int + 1));
            assert(out@ =~= old(out)@ + spec_enc_response_seq(sk));
        }
    } else {
        proof {
            assert(view_response_seq(v@).skip(from as int) =~= Seq::<ResponseView>::empty());
            assert(out@ =~= old(out)@ + spec_enc_response_seq(
                view_response_seq(v@).skip(from as int),
            ));
        }
    }
}

/// Decodes a response.
pub fn dec_response(s: &Vec<u8>, pos: usize) -> (r: Option<(Response, usize)>)
    ensures
        match r {
            Some((v, j)) => {
                &&& spec_parse_response(s@, pos as int) == Some((v@, j as int))
                &&& pos < j <= s@.len()
            },
            None => spec_parse_response(s@, pos as int) is None,
        },
    decreases s@.len() - pos, 0nat, 0nat,
{
    match dec_u8(s, pos) {
        Some((t, j)) => {
            if t == 0 {
                match dec_u64(s, j) {
                    Some((n, j1)) => match dec_response_seq(s, j1, n) {
                        Some((subs, k)) => Some((Response::BulkResponse(subs), k)),
                        None => None,
                    },
                    None => None,
                }
            } else if t == 1 {
                Some((Response::ConfigUpdated, j))
            } else if t == 2 {
                match dec_u64(s, j) {
                    Some((n, j1)) => match dec_id_body_handle_seq(s, j1, n) {
                        Some((v, k)) => Some((Response::RigidBodyHandles(v), k)),
                        None => None,
                    },
                    None => None,
                }
            } else if t == 3 {
                match dec_u64(s, j) {
                    Some((n, j1)) => match dec_id_collider_handle_seq(s, j1, n) {
                        Some((v, k)) => Some((Response::ColliderHandles(v), k)),
                        None => None,
                    },
                    None => None,
                }
            } else if t == 4 {
                match dec_u64(s, j) {
                    Some((n, j1)) => match dec_sim_entry_seq(s, j1, n) {
                        Some((v, k)) => Some((Response::SimulationResult(v), k)),
                        None => None,
                    },
                    None => None,
                }
            } else {
                None
            }
        },
        None => None,
    }
}

/// Decodes `n` consecutive responses.
pub fn dec_response_seq(s: &Vec<u8>, pos: usize, n: u64) -> (r: Option<(Vec<Response>, usize)>)
    requires
        pos <= s@.len(),
    ensures
        match r {
            Some((v, j)) => {
                &&& spec_parse_response_seq(s@, pos as int, n as nat) == Some(
                    (view_response_seq(v@), j as int),
                )
                &&& pos <= j <= s@.len()
            },
            None => spec_parse_response_seq(s@, pos as int, n as nat) is None,
        },
    decreases s@.len() - pos, 1nat, n,
{
    if n == 0 {
        let v: Vec<Response> = Vec::new();
        proof {
            assert(view_response_seq(v@) =~= Seq::<ResponseView>::empty());
        }
        Some((v, pos))
    } else {
        match dec_response(s, pos) {
            Some((b, j)) => match dec_response_seq(s, j, n - 1) {
                Some((rest, k)) => {
                    let ghost r0 = rest@;
                    let mut rest = rest;
                    rest.insert(0, b);
                    proof {
                        assert(rest@ =~= seq![b] + r0);
                        assert((seq![b] + r0)[0] == b);
                        assert((seq![b] + r0).drop_first() =~= r0);
                        assert(view_response_seq(rest@) =~= seq![view_response(b)]
                            + view_response_seq(r0));
                    }
                    Some((rest, k))
                },
                None => None,
            },
            None => None,
        }
    }
}

// ---------------------------------------------------------------------------
// Whole messages and the round-trip laws
// ---------------------------------------------------------------------------

/// Encodes a request into a fresh payload.
pub fn encode_request(r: &Request) -> (out: Vec<u8>)
    ensures
        out@ == spec_enc_request(r@),
        spec_wf_request(r@),
{
    let mut out: Vec<u8> = Vec::new();
    enc_request_into(&mut out, r);
    out
}

/// Decodes a payload into a request. Succeeds exactly when the payload
/// parses as one request with no trailing bytes; anything else is a
/// serialization error.
pub fn decode_request(s: &Vec<u8>) -> (r: Result<Request, ErrorKind>)
    ensures
        match r {
            Ok(req) => spec_parse_request(s@, 0) == Some((req@, s@.len() as int)),
            Err(e) => {
                &&& e == ErrorKind::Serialization
                &&& match spec_parse_request(s@, 0) {
                    Some((v, j)) => j != s@.len(),
                    None => true,
                }
            },
        },
{
    match dec_request(s, 0) {
        Some((req, j)) => {
            if j == s.len() {
                Ok(req)
            } else {
                Err(ErrorKind::Serialization)
            }
        },
        None => Err(ErrorKind::Serialization),
    }
}

/// Encodes a response into a fresh payload.
pub fn encode_response(r: &Response) -> (out: Vec<u8>)
    ensures
        out@ == spec_enc_response(r@),
        spec_wf_response(r@),
{
    let mut out: Vec<u8> = Vec::new();
    enc_response_into(&mut out, r);
    out
}

/// Decodes a payload into a response. Succeeds exactly when the payload
/// parses as one response with no trailing bytes.
pub fn decode_response(s: &Vec<u8>) -> (r: Result<Response, ErrorKind>)
    ensures
        match r {
            Ok(resp) => spec_parse_response(s@, 0) == Some((resp@, s@.len() as int)),
            Err(e) => {
                &&& e == ErrorKind::Serialization
                &&& match spec_parse_response(s@, 0) {
                    Some((v, j)) => j != s@.len(),
                    None => true,
                }
            },
        },
{
    match dec_response(s, 0) {
        Some((resp, j)) => {
            if j == s.len() {
                Ok(resp)
            } else {
                Err(ErrorKind::Serialization)
            }
        },
        None => Err(ErrorKind::Serialization),
    }
}

/// Round trip for requests: parsing the encoding of any well-formed request
/// value gives back exactly that value, consuming the whole payload. With
/// the contracts of `encode_request` and `decode_request` this says that
/// `decode_request(encode_request(v))` returns `Ok` of a request whose value
/// is `v@`, for every encodable `v`.
pub proof fn lemma_request_round_trip(rv: RequestView)
    requires
        spec_wf_request(rv),
    ensures
        spec_parse_request(spec_enc_request(rv), 0) == Some(
            (rv, spec_enc_request(rv).len() as int),
        ),
{
    let s = spec_enc_request(rv);
    assert(s.subrange(0, s.len() as int) =~= s);
    lemma_parse_enc_request(rv, s, 0);
}

/// Round trip for responses: parsing the encoding of any well-formed
/// response value gives back exactly that value, consuming the whole
/// payload.
pub proof fn lemma_response_round_trip(rv: ResponseView)
    requires
        spec_wf_response(rv),
    ensures
        spec_parse_response(spec_enc_response(rv), 0) == Some(
            (rv, spec_enc_response(rv).len() as int),
        ),
{
    let s = spec_enc_response(rv);
    assert(s.subrange(0, s.len() as int) =~= s);
    lemma_parse_enc_response(rv, s, 0);
}

/// A sequence of responses each of which is well-formed is well-formed as a
/// sequence.
pub proof fn lemma_wf_response_seq_from_elems(ps: Seq<ResponseView>)
    requires
        forall|k: int| 0 <= k < ps.len() ==> spec_wf_response(#[trigger] ps[k]),
    ensures
        spec_wf_response_seq(ps),
    decreases ps.len(),
{
    if ps.len() > 0 {
        assert(forall|k: int|
            0 <= k < ps.drop_first().len() ==> spec_wf_response(
                #[trigger] ps.drop_first()[k],
            ));
        lemma_wf_response_seq_from_elems(ps.drop_first());
    }
}

} // verus!
