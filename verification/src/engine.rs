//! The boundary to the physics engine. The session logic decides what to
//! insert and when to step; each call into rapier3d goes through one trusted
//! wrapper here. The engine's state is tracked abstractly by two names: the
//! set of body handles it holds, and the map from collider handles to their
//! parent body, which is all the session's contracts need. Positions and
//! velocities are the solver's own output and are passed through untouched.

use vstd::prelude::*;

use rapier3d::math::{Pose, Real, Rotation, Vector};

use crate::math::{Isometry, Vect};
use crate::serializable::SerializableMassProperties;

verus! {

#[verifier::external_type_specification]
#[verifier::external_body]
pub struct ExPhysicsWorld(rapier3d::pipeline::PhysicsWorld);

#[verifier::external_type_specification]
#[verifier::external_body]
pub struct ExRigidBodyBuilder(rapier3d::dynamics::RigidBodyBuilder);

#[verifier::external_type_specification]
#[verifier::external_body]
pub struct ExColliderBuilder(rapier3d::geometry::ColliderBuilder);

#[verifier::external_type_specification]
#[verifier::external_body]
pub struct ExMassProperties(rapier3d::dynamics::MassProperties);

#[verifier::external_type_specification]
#[verifier::external_body]
pub struct ExVector(rapier3d::math::Vector);

#[verifier::external_type_specification]
#[verifier::external_body]
pub struct ExRotation(rapier3d::math::Rotation);

/// Relies on the `to_bits` accessors of the vector's components: the raw
/// bit patterns of an engine vector.
#[verifier::external_body]
pub(crate) fn vect_bits(v: Vector) -> Vect {
    Vect { x: v.x.to_bits(), y: v.y.to_bits(), z: v.z.to_bits() }
}

/// Relies on the `to_bits` accessors of the quaternion's components: the
/// raw bit patterns of an engine rotation.
#[verifier::external_body]
pub(crate) fn rot_bits(q: Rotation) -> crate::math::Rot {
    crate::math::Rot { x: q.x.to_bits(), y: q.y.to_bits(), z: q.z.to_bits(), w: q.w.to_bits() }
}

/// The handles of the rigid bodies the engine holds, as raw
/// `(index, generation)` parts.
pub uninterp spec fn world_bodies(w: rapier3d::pipeline::PhysicsWorld) -> Set<(u32, u32)>;

/// The colliders the engine holds: each collider handle mapped to the body
/// it is attached to, or `None` for a free-standing collider.
pub uninterp spec fn world_colliders(w: rapier3d::pipeline::PhysicsWorld) -> Map<
    (u32, u32),
    Option<(u32, u32)>,
>;

/// Relies on `PhysicsWorld::new`: a fresh world holds no bodies and no
/// colliders.
#[verifier::external_body]
pub(crate) fn world_new() -> (w: rapier3d::pipeline::PhysicsWorld)
    ensures
        forall|h| !world_bodies(w).contains(h),
        forall|c| !world_colliders(w).dom().contains(c),
{
    rapier3d::pipeline::PhysicsWorld::new()
}

/// Relies on `RigidBodyBuilder::dynamic`.
#[verifier::external_body]
pub(crate) fn rb_dynamic() -> rapier3d::dynamics::RigidBodyBuilder {
    rapier3d::dynamics::RigidBodyBuilder::dynamic()
}

/// Relies on `RigidBodyBuilder::fixed`.
#[verifier::external_body]
pub(crate) fn rb_fixed() -> rapier3d::dynamics::RigidBodyBuilder {
    rapier3d::dynamics::RigidBodyBuilder::fixed()
}

/// Relies on `RigidBodyBuilder::kinematic_position_based`.
#[verifier::external_body]
pub(crate) fn rb_kinematic_position_based() -> rapier3d::dynamics::RigidBodyBuilder {
    rapier3d::dynamics::RigidBodyBuilder::kinematic_position_based()
}

/// Relies on `RigidBodyBuilder::kinematic_velocity_based`.
#[verifier::external_body]
pub(crate) fn rb_kinematic_velocity_based() -> rapier3d::dynamics::RigidBodyBuilder {
    rapier3d::dynamics::RigidBodyBuilder::kinematic_velocity_based()
}

/// Relies on `RigidBodyBuilder::pose`: sets the body's initial placement
/// to the floats carried by the given bit patterns.
#[verifier::external_body]
pub(crate) fn rb_position(
    b: rapier3d::dynamics::RigidBodyBuilder,
    iso: &Isometry,
) -> rapier3d::dynamics::RigidBodyBuilder {
    b.pose(Pose::from_parts(
        Vector::new(
            Real::from_bits(iso.translation.x),
            Real::from_bits(iso.translation.y),
            Real::from_bits(iso.translation.z),
        ),
        Rotation::from_xyzw(
            Real::from_bits(iso.rotation.x),
            Real::from_bits(iso.rotation.y),
            Real::from_bits(iso.rotation.z),
            Real::from_bits(iso.rotation.w),
        ),
    ))
}

/// Relies on `RigidBodyBuilder::additional_mass`.
#[verifier::external_body]
pub(crate) fn rb_additional_mass(
    b: rapier3d::dynamics::RigidBodyBuilder,
    mass: u32,
) -> rapier3d::dynamics::RigidBodyBuilder {
    b.additional_mass(Real::from_bits(mass))
}

/// Relies on `MassProperties::with_principal_inertia_frame`: builds the
/// engine's mass properties from the floats carried by the bit patterns.
#[verifier::external_body]
pub(crate) fn mass_properties_of(
    p: &SerializableMassProperties,
) -> rapier3d::dynamics::MassProperties {
    let com = &p.local_center_of_mass;
    let pi = &p.principal_inertia;
    let fr = &p.principal_inertia_local_frame;
    rapier3d::dynamics::MassProperties::with_principal_inertia_frame(
        Vector::new(Real::from_bits(com.x), Real::from_bits(com.y), Real::from_bits(com.z)),
        Real::from_bits(p.mass),
        Vector::new(Real::from_bits(pi.x), Real::from_bits(pi.y), Real::from_bits(pi.z)),
        Rotation::from_xyzw(
            Real::from_bits(fr.x),
            Real::from_bits(fr.y),
            Real::from_bits(fr.z),
            Real::from_bits(fr.w),
        ),
    )
}

/// Relies on `RigidBodyBuilder::additional_mass_properties`.
#[verifier::external_body]
pub(crate) fn rb_additional_mass_properties(
    b: rapier3d::dynamics::RigidBodyBuilder,
    p: &SerializableMassProperties,
) -> rapier3d::dynamics::RigidBodyBuilder {
    b.additional_mass_properties(mass_properties_of(p))
}

/// Relies on `RigidBodyBuilder::user_data`: tags the body with the client's
/// entity id for traceability.
#[verifier::external_body]
pub(crate) fn rb_user_data(
    b: rapier3d::dynamics::RigidBodyBuilder,
    id: u64,
) -> rapier3d::dynamics::RigidBodyBuilder {
    b.user_data(id as u128)
}

/// Relies on `PhysicsWorld::insert_body` and the arena underneath it: the
/// returned handle names a slot that held no live body, and no collider is
/// touched.
#[verifier::external_body]
pub(crate) fn world_insert_body(
    w: &mut rapier3d::pipeline::PhysicsWorld,
    b: rapier3d::dynamics::RigidBodyBuilder,
) -> (h: (u32, u32))
    ensures
        !world_bodies(*old(w)).contains(h),
        world_bodies(*final(w)) == world_bodies(*old(w)).insert(h),
        world_colliders(*final(w)) == world_colliders(*old(w)),
{
    w.insert_body(b).into_raw_parts()
}

/// Relies on `ColliderBuilder::ball`.
#[verifier::external_body]
pub(crate) fn col_ball(radius: u32) -> rapier3d::geometry::ColliderBuilder {
    rapier3d::geometry::ColliderBuilder::ball(Real::from_bits(radius))
}

/// Relies on `ColliderBuilder::cuboid`.
#[verifier::external_body]
pub(crate) fn col_cuboid(hx: u32, hy: u32, hz: u32) -> rapier3d::geometry::ColliderBuilder {
    rapier3d::geometry::ColliderBuilder::cuboid(
        Real::from_bits(hx),
        Real::from_bits(hy),
        Real::from_bits(hz),
    )
}

/// Relies on `ColliderBuilder::position`: sets the collider's placement to
/// the floats carried by the given bit patterns.
#[verifier::external_body]
pub(crate) fn col_position(
    b: rapier3d::geometry::ColliderBuilder,
    iso: &Isometry,
) -> rapier3d::geometry::ColliderBuilder {
    b.position(Pose::from_parts(
        Vector::new(
            Real::from_bits(iso.translation.x),
            Real::from_bits(iso.translation.y),
            Real::from_bits(iso.translation.z),
        ),
        Rotation::from_xyzw(
            Real::from_bits(iso.rotation.x),
            Real::from_bits(iso.rotation.y),
            Real::from_bits(iso.rotation.z),
            Real::from_bits(iso.rotation.w),
        ),
    ))
}

/// Relies on `ColliderBuilder::sensor`.
#[verifier::external_body]
pub(crate) fn col_sensor(
    b: rapier3d::geometry::ColliderBuilder,
) -> rapier3d::geometry::ColliderBuilder {
    b.sensor(true)
}

/// Relies on `ColliderBuilder::density`.
#[verifier::external_body]
pub(crate) fn col_density(
    b: rapier3d::geometry::ColliderBuilder,
    density: u32,
) -> rapier3d::geometry::ColliderBuilder {
    b.density(Real::from_bits(density))
}

/// Relies on `ColliderBuilder::mass`.
#[verifier::external_body]
pub(crate) fn col_mass(
    b: rapier3d::geometry::ColliderBuilder,
    mass: u32,
) -> rapier3d::geometry::ColliderBuilder {
    b.mass(Real::from_bits(mass))
}

/// Relies on `ColliderBuilder::mass_properties`.
#[verifier::external_body]
pub(crate) fn col_mass_properties(
    b: rapier3d::geometry::ColliderBuilder,
    p: &SerializableMassProperties,
) -> rapier3d::geometry::ColliderBuilder {
    b.mass_properties(mass_properties_of(p))
}

/// Relies on `ColliderBuilder::friction`.
#[verifier::external_body]
pub(crate) fn col_friction(
    b: rapier3d::geometry::ColliderBuilder,
    coefficient: u32,
) -> rapier3d::geometry::ColliderBuilder {
    b.friction(Real::from_bits(coefficient))
}

/// Relies on `ColliderBuilder::friction_combine_rule` with `Average`.
#[verifier::external_body]
pub(crate) fn col_friction_combine_average(
    b: rapier3d::geometry::ColliderBuilder,
) -> rapier3d::geometry::ColliderBuilder {
    b.friction_combine_rule(rapier3d::dynamics::CoefficientCombineRule::Average)
}

/// Relies on `ColliderBuilder::friction_combine_rule` with `Min`.
#[verifier::external_body]
pub(crate) fn col_friction_combine_min(
    b: rapier3d::geometry::ColliderBuilder,
) -> rapier3d::geometry::ColliderBuilder {
    b.friction_combine_rule(rapier3d::dynamics::CoefficientCombineRule::Min)
}

/// Relies on `ColliderBuilder::friction_combine_rule` with `Multiply`.
#[verifier::external_body]
pub(crate) fn col_friction_combine_multiply(
    b: rapier3d::geometry::ColliderBuilder,
) -> rapier3d::geometry::ColliderBuilder {
    b.friction_combine_rule(rapier3d::dynamics::CoefficientCombineRule::Multiply)
}

/// Relies on `ColliderBuilder::friction_combine_rule` with `Max`.
#[verifier::external_body]
pub(crate) fn col_friction_combine_max(
    b: rapier3d::geometry::ColliderBuilder,
) -> rapier3d::geometry::ColliderBuilder {
    b.friction_combine_rule(rapier3d::dynamics::CoefficientCombineRule::Max)
}

/// Relies on `ColliderBuilder::restitution`.
#[verifier::external_body]
pub(crate) fn col_restitution(
    b: rapier3d::geometry::ColliderBuilder,
    coefficient: u32,
) -> rapier3d::geometry::ColliderBuilder {
    b.restitution(Real::from_bits(coefficient))
}

/// Relies on `ColliderBuilder::restitution_combine_rule` with `Average`.
#[verifier::external_body]
pub(crate) fn col_restitution_combine_average(
    b: rapier3d::geometry::ColliderBuilder,
) -> rapier3d::geometry::ColliderBuilder {
    b.restitution_combine_rule(rapier3d::dynamics::CoefficientCombineRule::Average)
}

/// Relies on `ColliderBuilder::restitution_combine_rule` with `Min`.
#[verifier::external_body]
pub(crate) fn col_restitution_combine_min(
    b: rapier3d::geometry::ColliderBuilder,
) -> rapier3d::geometry::ColliderBuilder {
    b.restitution_combine_rule(rapier3d::dynamics::CoefficientCombineRule::Min)
}

/// Relies on `ColliderBuilder::restitution_combine_rule` with `Multiply`.
#[verifier::external_body]
pub(crate) fn col_restitution_combine_multiply(
    b: rapier3d::geometry::ColliderBuilder,
) -> rapier3d::geometry::ColliderBuilder {
    b.restitution_combine_rule(rapier3d::dynamics::CoefficientCombineRule::Multiply)
}

/// Relies on `ColliderBuilder::restitution_combine_rule` with `Max`.
#[verifier::external_body]
pub(crate) fn col_restitution_combine_max(
    b: rapier3d::geometry::ColliderBuilder,
) -> rapier3d::geometry::ColliderBuilder {
    b.restitution_combine_rule(rapier3d::dynamics::CoefficientCombineRule::Max)
}

/// Relies on `ColliderBuilder::user_data`: tags the collider with the
/// client's entity id for traceability.
#[verifier::external_body]
pub(crate) fn col_user_data(
    b: rapier3d::geometry::ColliderBuilder,
    id: u64,
) -> rapier3d::geometry::ColliderBuilder {
    b.user_data(id as u128)
}

/// Relies on `PhysicsWorld::insert_collider` with no parent: the returned
/// handle names a slot that held no live collider, the collider is
/// free-standing, and no body is touched.
#[verifier::external_body]
pub(crate) fn world_insert_collider_free(
    w: &mut rapier3d::pipeline::PhysicsWorld,
    b: rapier3d::geometry::ColliderBuilder,
) -> (h: (u32, u32))
    ensures
        !world_colliders(*old(w)).dom().contains(h),
        world_colliders(*final(w)) == world_colliders(*old(w)).insert(h, None::<(u32, u32)>),
        world_bodies(*final(w)) == world_bodies(*old(w)),
{
    w.insert_collider(b, None).into_raw_parts()
}

/// Relies on `PhysicsWorld::insert_collider` with a parent: the collider is
/// attached to that body, and no body is added or removed. The parent must
/// be a live body: `ColliderSet::insert_with_parent` does not return on an
/// unknown handle.
#[verifier::external_body]
pub(crate) fn world_insert_collider_with_parent(
    w: &mut rapier3d::pipeline::PhysicsWorld,
    b: rapier3d::geometry::ColliderBuilder,
    parent: (u32, u32),
) -> (h: (u32, u32))
    requires
        world_bodies(*old(w)).contains(parent),
    ensures
        !world_colliders(*old(w)).dom().contains(h),
        world_colliders(*final(w)) == world_colliders(*old(w)).insert(h, Some(parent)),
        world_bodies(*final(w)) == world_bodies(*old(w)),
{
    let handle = w.insert_collider(
        b,
        Some(rapier3d::dynamics::RigidBodyHandle::from_raw_parts(parent.0, parent.1)),
    );
    handle.into_raw_parts()
}

/// Relies on `PhysicsWorld::step`: advances the solver by the given delta
/// time under the given gravity. Bodies and colliders are moved, never
/// added or removed.
#[verifier::external_body]
pub(crate) fn world_step(w: &mut rapier3d::pipeline::PhysicsWorld, gravity: &Vect, dt_us: u64)
    ensures
        world_bodies(*final(w)) == world_bodies(*old(w)),
        world_colliders(*final(w)) == world_colliders(*old(w)),
{
    w.gravity = Vector::new(
        Real::from_bits(gravity.x),
        Real::from_bits(gravity.y),
        Real::from_bits(gravity.z),
    );
    w.integration_parameters.dt = core::time::Duration::from_micros(dt_us).as_secs_f32();
    w.step();
}

/// Relies on `RigidBodySet::iter`: lists every live body exactly once.
#[verifier::external_body]
pub(crate) fn world_body_handles(w: &rapier3d::pipeline::PhysicsWorld) -> (hs: Vec<(u32, u32)>)
    ensures
        forall|h: (u32, u32)| #[trigger] hs@.contains(h) <==> world_bodies(*w).contains(h),
        forall|i: int, j: int| 0 <= i < j < hs@.len() ==> hs@[i] != hs@[j],
{
    w.bodies.iter().map(|entry| entry.0.into_raw_parts()).collect()
}

/// Relies on `RigidBodySet::get`, `RigidBody::pose`, `linvel` and
/// `angvel`: returns the body's placement and velocity as bit patterns,
/// for exactly the live handles.
#[verifier::external_body]
pub(crate) fn world_body_state(
    w: &rapier3d::pipeline::PhysicsWorld,
    h: (u32, u32),
) -> (r: Option<(Isometry, Vect, Vect)>)
    ensures
        r is Some <==> world_bodies(*w).contains(h),
{
    let handle = rapier3d::dynamics::RigidBodyHandle::from_raw_parts(h.0, h.1);
    w.bodies.get(handle).map(|rb| (
        Isometry {
            translation: vect_bits(rb.position().translation),
            rotation: rot_bits(rb.position().rotation),
        },
        vect_bits(rb.linvel()),
        vect_bits(rb.angvel()),
    ))
}

/// Relies on `ColliderSet::get` and `Collider::parent`: returns the parent
/// recorded for a live collider handle, `None` for an unknown one.
#[verifier::external_body]
pub(crate) fn world_collider_parent(
    w: &rapier3d::pipeline::PhysicsWorld,
    h: (u32, u32),
) -> (r: Option<Option<(u32, u32)>>)
    ensures
        match r {
            Some(p) => world_colliders(*w).dom().contains(h) && p == world_colliders(*w)[h],
            None => !world_colliders(*w).dom().contains(h),
        },
{
    let handle = rapier3d::geometry::ColliderHandle::from_raw_parts(h.0, h.1);
    w.colliders.get(handle).map(|c| c.parent().map(|p| p.into_raw_parts()))
}

} // verus!
