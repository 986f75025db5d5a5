use vstd::prelude::*;

use crate::math::{Rot, Vect};

verus! {

/// How the friction or restitution coefficients of two colliders in contact
/// are combined into one value.
#[derive(Debug, Clone, Copy, PartialEq, Eq, Structural)]
pub enum CoefficientCombineRule {
    Average,
    Min,
    Multiply,
    Max,
}

/// Full mass properties of a body or collider: centre of mass, mass, and the
/// principal angular inertia with its local frame. All float values are
/// carried as bit patterns.
#[derive(Debug, Clone, Copy, PartialEq, Eq, Structural)]
pub struct SerializableMassProperties {
    pub local_center_of_mass: Vect,
    pub mass: u32,
    pub principal_inertia_local_frame: Rot,
    pub principal_inertia: Vect,
}

/// Mass properties of a collider: either a material density, a total mass, or
/// full mass properties.
#[derive(Debug, Clone, Copy, PartialEq, Eq, Structural)]
pub enum SerializableColliderMassProperties {
    Density(u32),
    Mass(u32),
    MassProperties(SerializableMassProperties),
}

/// Mass added to a rigid body on top of what its colliders contribute.
#[derive(Debug, Clone, Copy, PartialEq, Eq, Structural)]
pub enum SerializableAdditionalMassProperties {
    Mass(u32),
    MassProperties(SerializableMassProperties),
}

/// Marks a collider as a sensor: it detects intersections but produces no
/// contact forces.
#[derive(Debug, Clone, Copy, PartialEq, Eq, Structural)]
pub struct SerializableSensor;

/// Friction coefficient of a collider, with the rule that combines it with
/// the coefficient of the collider it touches.
#[derive(Debug, Clone, Copy, PartialEq, Eq, Structural)]
pub struct SerializableFriction {
    pub coefficient: u32,
    pub combine_rule: CoefficientCombineRule,
}

/// Restitution (bounciness) coefficient of a collider, with its combine rule.
#[derive(Debug, Clone, Copy, PartialEq, Eq, Structural)]
pub struct SerializableRestitution {
    pub coefficient: u32,
    pub combine_rule: CoefficientCombineRule,
}

/// How a frame's delta time is reconciled with the engine's internal step.
/// Times are integer microseconds; `time_scale_ppm` scales the delta time in
/// parts per million (1_000_000 leaves it unchanged).
#[derive(Debug, Clone, Copy, PartialEq, Eq, Structural)]
pub enum SerializableTimestepMode {
    /// Advance in fixed steps of `dt_us`, banking any remainder of the frame
    /// delta in the session's accumulator.
    Fixed { dt_us: u32, substeps: u32 },
    /// Advance once per frame by the scaled frame delta, capped at
    /// `max_dt_us`.
    Variable { max_dt_us: u32, time_scale_ppm: u32, substeps: u32 },
    /// Advance in fixed steps of `dt_us` like `Fixed`, with the frame delta
    /// scaled by `time_scale_ppm` before it is banked.
    Interpolated { dt_us: u32, time_scale_ppm: u32, substeps: u32 },
}

/// The session configuration the client pushes to the server: gravity (float
/// bits), pipeline switches, and the timestep mode.
#[derive(Debug, Clone, Copy, PartialEq, Eq, Structural)]
pub struct SerializableRapierConfiguration {
    pub gravity: Vect,
    pub physics_pipeline_active: bool,
    pub query_pipeline_active: bool,
    pub timestep_mode: SerializableTimestepMode,
    pub scaled_shape_subdivision: u32,
    pub force_update_from_transform_changes: bool,
}

} // verus!
